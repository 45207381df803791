//! Reminder extraction: turning a task's serialized reminder list into
//! normalized occurrences. Entries whose container does not decode, entries
//! without a `date` member, and entries whose `date` is not a valid RFC 3339
//! timestamp are skipped silently; a malformed task never aborts a scan.

use vstd::prelude::*;

use crate::model::{OccurrenceSpec, ReminderOccurrence, Task};
use crate::trusted::{
    get_str_field, json_array_of, json_str_field, parse_rfc3339_epoch, parse_value_list,
    rfc3339_epoch_of,
};

verus! {

/// The repeat tag of one decoded reminder entry: its `repeat` member where
/// that is a string, and `"none"` otherwise.
pub open spec fn entry_repeat(v: serde_json::Value) -> Seq<char> {
    match json_str_field(v, "repeat"@) {
        Some(r) => r,
        None => "none"@,
    }
}

/// The occurrence one decoded reminder entry yields for the given task, or
/// `None` where the entry has no `date` string member or its `date` is not a
/// valid RFC 3339 timestamp.
pub open spec fn entry_occurrence(
    task_id: Seq<char>,
    task_title: Seq<char>,
    v: serde_json::Value,
) -> Option<OccurrenceSpec> {
    match json_str_field(v, "date"@) {
        Some(ds) => match rfc3339_epoch_of(ds) {
            Some(t) => Some(
                OccurrenceSpec {
                    task_id: task_id,
                    task_title: task_title,
                    reminder_time: t,
                    repeat: entry_repeat(v),
                },
            ),
            None => None,
        },
        None => None,
    }
}

/// The occurrences a sequence of decoded reminder entries yields, in entry
/// order, entries without a parseable date skipped.
pub open spec fn extracted_from_values(
    task_id: Seq<char>,
    task_title: Seq<char>,
    vs: Seq<serde_json::Value>,
) -> Seq<OccurrenceSpec>
    decreases vs.len(),
{
    if vs.len() == 0 {
        Seq::empty()
    } else {
        extracted_from_values(task_id, task_title, vs.drop_last()) + match entry_occurrence(
            task_id,
            task_title,
            vs.last(),
        ) {
            Some(o) => seq![o],
            None => Seq::empty(),
        }
    }
}

/// The occurrences of one task: none where the reminder blob is not a JSON
/// array, and the occurrences of its entries otherwise.
pub open spec fn extracted(task: Task) -> Seq<OccurrenceSpec> {
    match json_array_of(task.reminders@) {
        Some(vs) => extracted_from_values(task.id@, task.title@, vs),
        None => Seq::empty(),
    }
}

/// Extracts the normalized reminder occurrences of one task. Total: whatever
/// the reminder blob holds, the result is exactly the occurrences of its
/// well-formed entries, and a malformed blob yields none.
pub fn extract_occurrences(task: &Task) -> (r: Vec<ReminderOccurrence>)
    ensures
        r.deep_view() == extracted(*task),
{
    let mut out: Vec<ReminderOccurrence> = Vec::new();
    let vals = match parse_value_list(task.reminders.as_str()) {
        Some(vs) => vs,
        None => {
            assert(out.deep_view() =~= extracted(*task));
            return out;
        },
    };
    let n = vals.len();
    let mut i: usize = 0;
    while i < n
        invariant
            n == vals@.len(),
            i <= n,
            json_array_of(task.reminders@) == Some(vals@),
            out.deep_view() =~= extracted_from_values(task.id@, task.title@, vals@.take(i as int)),
        decreases n - i,
    {
        let v = &vals[i];
        let ghost prev = out.deep_view();
        match get_str_field(v, "date") {
            Some(ds) => {
                match parse_rfc3339_epoch(ds.as_str()) {
                    Some(t) => {
                        let repeat = match get_str_field(v, "repeat") {
                            Some(rp) => rp,
                            None => String::from_str("none"),
                        };
                        out.push(
                            ReminderOccurrence {
                                task_id: task.id.clone(),
                                task_title: task.title.clone(),
                                reminder_time: t,
                                repeat,
                            },
                        );
                    },
                    None => {},
                }
            },
            None => {},
        }
        proof {
            let vs = vals@;
            assert(vs.take(i + 1).drop_last() =~= vs.take(i as int));
            assert(vs.take(i + 1).last() == vs[i as int]);
            assert(out.deep_view() =~= extracted_from_values(
                task.id@,
                task.title@,
                vs.take(i + 1),
            ));
        }
        i = i + 1;
    }
    proof {
        assert(vals@.take(n as int) =~= vals@);
    }
    out
}

/// Malformed entries are skipped without suppressing the rest of the batch:
/// every entry with a parseable date contributes its occurrence, whatever
/// the entries around it hold, and a batch of nothing but malformed entries
/// contributes nothing. Extraction itself is total, so no reminder blob can
/// raise an error visible to the scheduler.
pub proof fn lemma_entry_membership(
    task_id: Seq<char>,
    task_title: Seq<char>,
    vs: Seq<serde_json::Value>,
)
    ensures
        forall|i: int|
            0 <= i < vs.len() ==> match entry_occurrence(task_id, task_title, #[trigger] vs[i]) {
                Some(o) => extracted_from_values(task_id, task_title, vs).contains(o),
                None => true,
            },
        (forall|i: int|
            0 <= i < vs.len() ==> entry_occurrence(task_id, task_title, #[trigger] vs[i]) is None)
            ==> extracted_from_values(task_id, task_title, vs).len() == 0,
    decreases vs.len(),
{
    if vs.len() > 0 {
        let vs0 = vs.drop_last();
        lemma_entry_membership(task_id, task_title, vs0);
        let e = extracted_from_values(task_id, task_title, vs);
        let e0 = extracted_from_values(task_id, task_title, vs0);
        assert forall|i: int| 0 <= i < vs.len() implies match entry_occurrence(
            task_id,
            task_title,
            #[trigger] vs[i],
        ) {
            Some(o) => extracted_from_values(task_id, task_title, vs).contains(o),
            None => true,
        } by {
            match entry_occurrence(task_id, task_title, vs[i]) {
                Some(o) => {
                    if i == vs.len() - 1 {
                        assert(e[e.len() - 1] == o);
                    } else {
                        assert(vs0[i] == vs[i]);
                        assert(e0.contains(o));
                        let j = choose|j: int| 0 <= j < e0.len() && e0[j] == o;
                        assert(e[j] == o);
                    }
                },
                None => {},
            }
        }
        if forall|i: int|
            0 <= i < vs.len() ==> entry_occurrence(task_id, task_title, #[trigger] vs[i]) is None {
            assert(forall|i: int|
                0 <= i < vs0.len() ==> entry_occurrence(task_id, task_title, #[trigger] vs0[i])
                    is None) by {
                assert(forall|i: int| 0 <= i < vs0.len() ==> vs0[i] == vs[i]);
            }
            assert(entry_occurrence(task_id, task_title, vs[vs.len() - 1]) is None);
        }
    }
}

} // verus!
