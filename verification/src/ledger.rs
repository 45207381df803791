//! The delivery ledger: the durable record of delivered occurrences, keyed
//! by `(task_id, reminder_time)`. At most one record exists per key at any
//! time; writes are upserts, so retries and overlapping passes cannot
//! duplicate a record. Records leave the ledger only through age-based
//! cleanup or when their owning task is deleted.

use vstd::prelude::*;

use crate::model::{record_key, DeliveryRecord, RecordSpec};
use crate::trusted::str_eq;

verus! {

/// Seconds a delivery record is retained, measured from `sent_at`: 30 days.
pub const RETENTION_SECONDS: i64 = 30 * 24 * 60 * 60;

/// No two records share a deduplication key.
pub open spec fn unique_keys(s: Seq<RecordSpec>) -> bool {
    forall|i: int, j: int|
        #![trigger s[i], s[j]]
        0 <= i < j < s.len() ==> record_key(s[i]) != record_key(s[j])
}

/// The map a sequence of records denotes: each record under its key, later
/// records overriding earlier ones.
pub open spec fn ledger_map(s: Seq<RecordSpec>) -> Map<(Seq<char>, int), RecordSpec>
    decreases s.len(),
{
    if s.len() == 0 {
        Map::empty()
    } else {
        ledger_map(s.drop_last()).insert(record_key(s.last()), s.last())
    }
}

/// The domain of `ledger_map(s)` is exactly the set of keys of `s`, it is
/// finite, and every entry sits under its own key.
pub proof fn lemma_ledger_map_dom(s: Seq<RecordSpec>)
    ensures
        ledger_map(s).dom().finite(),
        forall|i: int| 0 <= i < s.len() ==> ledger_map(s).dom().contains(record_key(#[trigger] s[i])),
        forall|k: (Seq<char>, int)| #[trigger]
            ledger_map(s).dom().contains(k) ==> exists|i: int|
                0 <= i < s.len() && record_key(#[trigger] s[i]) == k,
        forall|k: (Seq<char>, int)| #[trigger]
            ledger_map(s).dom().contains(k) ==> record_key(ledger_map(s)[k]) == k,
    decreases s.len(),
{
    if s.len() > 0 {
        lemma_ledger_map_dom(s.drop_last());
        assert forall|k: (Seq<char>, int)| #[trigger]
            ledger_map(s).dom().contains(k) implies exists|i: int|
            0 <= i < s.len() && record_key(#[trigger] s[i]) == k by {
            if k == record_key(s.last()) {
                assert(record_key(s[s.len() - 1]) == k);
            } else {
                let i = choose|i: int|
                    0 <= i < s.drop_last().len() && record_key(#[trigger] s.drop_last()[i]) == k;
                assert(record_key(s[i]) == k);
            }
        }
        assert forall|i: int| 0 <= i < s.len() implies ledger_map(s).dom().contains(
            record_key(#[trigger] s[i]),
        ) by {
            if i < s.len() - 1 {
                assert(s.drop_last()[i] == s[i]);
            }
        }
    }
}

/// Under unique keys, looking a record's key up in the map yields that
/// record.
pub proof fn lemma_ledger_map_lookup(s: Seq<RecordSpec>)
    requires
        unique_keys(s),
    ensures
        forall|i: int| 0 <= i < s.len() ==> ledger_map(s)[record_key(#[trigger] s[i])] == s[i],
    decreases s.len(),
{
    if s.len() > 0 {
        lemma_ledger_map_lookup(s.drop_last());
        assert forall|i: int| 0 <= i < s.len() implies ledger_map(s)[record_key(
            #[trigger] s[i],
        )] == s[i] by {
            if i < s.len() - 1 {
                assert(s.drop_last()[i] == s[i]);
                assert(record_key(s[i]) != record_key(s[s.len() - 1]));
            }
        }
    }
}

/// Under unique keys, the map holds as many entries as the sequence.
pub proof fn lemma_ledger_map_len(s: Seq<RecordSpec>)
    requires
        unique_keys(s),
    ensures
        ledger_map(s).dom().len() == s.len(),
    decreases s.len(),
{
    if s.len() > 0 {
        lemma_ledger_map_len(s.drop_last());
        lemma_ledger_map_dom(s.drop_last());
        if ledger_map(s.drop_last()).dom().contains(record_key(s.last())) {
            let i = choose|i: int|
                0 <= i < s.drop_last().len() && record_key(#[trigger] s.drop_last()[i])
                    == record_key(s.last());
            assert(s.drop_last()[i] == s[i]);
            assert(false);
        }
        vstd::set::axiom_set_insert_len(ledger_map(s.drop_last()).dom(), record_key(s.last()));
    }
}

/// Replacing the record at `i` by one with the same key turns the map into
/// the map with that key overwritten.
pub proof fn lemma_ledger_map_update(s: Seq<RecordSpec>, i: int, r: RecordSpec)
    requires
        unique_keys(s),
        0 <= i < s.len(),
        record_key(s[i]) == record_key(r),
    ensures
        ledger_map(s.update(i, r)) == ledger_map(s).insert(record_key(r), r),
        unique_keys(s.update(i, r)),
    decreases s.len(),
{
    let su = s.update(i, r);
    if i == s.len() - 1 {
        assert(su.drop_last() =~= s.drop_last());
        assert(su.last() == r);
        assert(ledger_map(su) =~= ledger_map(s).insert(record_key(r), r));
    } else {
        assert(su.drop_last() =~= s.drop_last().update(i, r));
        assert(su.last() == s.last());
        assert(s.drop_last()[i] == s[i]);
        lemma_ledger_map_update(s.drop_last(), i, r);
        assert(record_key(s[i]) != record_key(s[s.len() - 1]));
        assert(ledger_map(su) =~= ledger_map(s).insert(record_key(r), r));
    }
    assert forall|a: int, b: int| 0 <= a < b < su.len() implies record_key(#[trigger] su[a])
        != record_key(#[trigger] su[b]) by {
        assert(record_key(su[a]) == record_key(s[a]));
        assert(record_key(su[b]) == record_key(s[b]));
    }
}

/// The records of `s` that satisfy `p`, in order.
pub open spec fn keep_records(s: Seq<RecordSpec>, p: spec_fn(RecordSpec) -> bool) -> Seq<
    RecordSpec,
>
    decreases s.len(),
{
    if s.len() == 0 {
        Seq::empty()
    } else if p(s.last()) {
        keep_records(s.drop_last(), p).push(s.last())
    } else {
        keep_records(s.drop_last(), p)
    }
}

/// Under unique keys, keeping the records that satisfy `p` restricts the map
/// to the entries that satisfy `p`, leaving those entries unchanged.
pub proof fn lemma_keep_records_map(s: Seq<RecordSpec>, p: spec_fn(RecordSpec) -> bool)
    requires
        unique_keys(s),
    ensures
        ledger_map(keep_records(s, p)) == Map::new(
            |k: (Seq<char>, int)| ledger_map(s).dom().contains(k) && p(ledger_map(s)[k]),
            |k: (Seq<char>, int)| ledger_map(s)[k],
        ),
        unique_keys(keep_records(s, p)),
        forall|j: int| 0 <= j < keep_records(s, p).len() ==> exists|i: int|
            0 <= i < s.len() && #[trigger] keep_records(s, p)[j] == s[i],
    decreases s.len(),
{
    let goal = Map::new(
        |k: (Seq<char>, int)| ledger_map(s).dom().contains(k) && p(ledger_map(s)[k]),
        |k: (Seq<char>, int)| ledger_map(s)[k],
    );
    if s.len() == 0 {
        assert(ledger_map(keep_records(s, p)) =~= goal);
    } else {
        let s0 = s.drop_last();
        let r = s.last();
        lemma_keep_records_map(s0, p);
        lemma_ledger_map_dom(s0);
        if ledger_map(s0).dom().contains(record_key(r)) {
            let i = choose|i: int|
                0 <= i < s0.len() && record_key(#[trigger] s0[i]) == record_key(r);
            assert(s0[i] == s[i]);
            assert(false);
        }
        let keep0 = keep_records(s0, p);
        assert forall|j: int| 0 <= j < keep_records(s, p).len() implies exists|i: int|
            0 <= i < s.len() && #[trigger] keep_records(s, p)[j] == s[i] by {
            if p(r) && j == keep_records(s, p).len() - 1 {
                assert(keep_records(s, p)[j] == s[s.len() - 1]);
            } else {
                assert(keep_records(s, p)[j] == keep0[j]);
                let i = choose|i: int| 0 <= i < s0.len() && #[trigger] keep0[j] == s0[i];
                assert(keep_records(s, p)[j] == s[i]);
            }
        }
        if p(r) {
            assert(keep0.push(r).drop_last() =~= keep0);
            assert(ledger_map(keep_records(s, p)) =~= goal);
        } else {
            assert(ledger_map(keep_records(s, p)) =~= goal);
        }
        assert forall|a: int, b: int| 0 <= a < b < keep_records(s, p).len() implies record_key(
            #[trigger] keep_records(s, p)[a],
        ) != record_key(#[trigger] keep_records(s, p)[b]) by {
            if p(r) && b == keep_records(s, p).len() - 1 {
                let i = choose|i: int| 0 <= i < s0.len() && #[trigger] keep0[a] == s0[i];
                assert(record_key(keep_records(s, p)[a]) == record_key(s0[i]));
                assert(s0[i] == s[i]);
                assert(record_key(s[i]) != record_key(s[s.len() - 1]));
            } else {
                assert(keep_records(s, p)[a] == keep0[a]);
                assert(keep_records(s, p)[b] == keep0[b]);
            }
        }
    }
}

/// Deleting a task leaks nothing and leaves nothing to resurrect: afterwards
/// no key of that task is present, whatever reminder time a later task
/// reusing the id might set, and every other task's records are untouched.
pub proof fn lemma_delete_for_task_clears(
    before: Map<(Seq<char>, int), RecordSpec>,
    after: Map<(Seq<char>, int), RecordSpec>,
    task_id: Seq<char>,
)
    requires
        after == before.remove_keys(Set::new(|k: (Seq<char>, int)| k.0 == task_id)),
    ensures
        forall|t: int| !(#[trigger] after.dom().contains((task_id, t))),
        forall|k: (Seq<char>, int)|
            k.0 != task_id ==> (#[trigger] after.dom().contains(k)) == before.dom().contains(k),
        forall|k: (Seq<char>, int)|
            k.0 != task_id && before.dom().contains(k) ==> (#[trigger] after[k]) == before[k],
{
}

/// The durable deduplication store. Its mathematical value is a map from
/// `(task_id, reminder_time)` to the record delivered under that key.
pub struct DeliveryLedger {
    records: Vec<DeliveryRecord>,
}

impl View for DeliveryLedger {
    type V = Map<(Seq<char>, int), RecordSpec>;

    closed spec fn view(&self) -> Map<(Seq<char>, int), RecordSpec> {
        ledger_map(self.records.deep_view())
    }
}

impl DeliveryLedger {
    /// The ledger's internal invariant: one record per key.
    pub closed spec fn wf(&self) -> bool {
        unique_keys(self.records.deep_view())
    }

    /// An empty ledger.
    pub fn new() -> (l: DeliveryLedger)
        ensures
            l.wf(),
            l@ == Map::<(Seq<char>, int), RecordSpec>::empty(),
    {
        let l = DeliveryLedger { records: Vec::new() };
        proof {
            assert(l.records.deep_view() =~= Seq::<RecordSpec>::empty());
            assert(l@ =~= Map::<(Seq<char>, int), RecordSpec>::empty());
        }
        l
    }

    /// Whether a delivery record exists for the occurrence
    /// `(task_id, reminder_time)`.
    pub fn is_reminder_sent(&self, task_id: &str, reminder_time: i64) -> (b: bool)
        ensures
            b == self@.dom().contains((task_id@, reminder_time as int)),
    {
        let ghost key = (task_id@, reminder_time as int);
        let n = self.records.len();
        let mut i: usize = 0;
        while i < n
            invariant
                n == self.records@.len(),
                i <= n,
                key == (task_id@, reminder_time as int),
                forall|j: int|
                    0 <= j < i ==> record_key(#[trigger] self.records.deep_view()[j]) != key,
            decreases n - i,
        {
            let rec = &self.records[i];
            if str_eq(rec.task_id.as_str(), task_id) && rec.reminder_time == reminder_time {
                proof {
                    lemma_ledger_map_dom(self.records.deep_view());
                    assert(record_key(self.records.deep_view()[i as int]) == key);
                }
                return true;
            }
            i = i + 1;
        }
        proof {
            lemma_ledger_map_dom(self.records.deep_view());
            if self@.dom().contains(key) {
                let j = choose|j: int|
                    0 <= j < self.records.deep_view().len() && record_key(
                        #[trigger] self.records.deep_view()[j],
                    ) == key;
                assert(false);
            }
        }
        false
    }

    /// Upserts a record: afterwards the ledger maps the record's key to the
    /// record, and no other entry has changed. Idempotent under retry.
    pub fn record(&mut self, rec: DeliveryRecord)
        requires
            old(self).wf(),
        ensures
            final(self).wf(),
            final(self)@ == old(self)@.insert((rec.task_id@, rec.reminder_time as int), rec@),
    {
        let ghost key = (rec.task_id@, rec.reminder_time as int);
        let ghost s0 = self.records.deep_view();
        let n = self.records.len();
        let mut i: usize = 0;
        while i < n
            invariant
                n == self.records@.len(),
                i <= n,
                key == (rec.task_id@, rec.reminder_time as int),
                s0 == self.records.deep_view(),
                unique_keys(s0),
                ledger_map(s0) == old(self)@,
                forall|j: int| 0 <= j < i ==> record_key(#[trigger] s0[j]) != key,
            decreases n - i,
        {
            let at = &self.records[i];
            if str_eq(at.task_id.as_str(), rec.task_id.as_str()) && at.reminder_time
                == rec.reminder_time {
                proof {
                    assert(record_key(s0[i as int]) == key);
                    lemma_ledger_map_update(s0, i as int, rec@);
                }
                self.records[i] = rec;
                proof {
                    assert(self.records.deep_view() =~= s0.update(i as int, rec@));
                }
                return ;
            }
            i = i + 1;
        }
        let ghost s = self.records.deep_view();
        self.records.push(rec);
        proof {
            assert(self.records.deep_view() =~= s.push(rec@));
            assert(s.push(rec@).drop_last() =~= s);
            assert(forall|j: int| 0 <= j < s.len() ==> record_key(#[trigger] s[j]) != key);
            assert forall|a: int, b: int|
                0 <= a < b < s.push(rec@).len() implies record_key(#[trigger] s.push(rec@)[a])
                != record_key(#[trigger] s.push(rec@)[b]) by {
                if b < s.len() {
                    assert(s.push(rec@)[a] == s[a]);
                    assert(s.push(rec@)[b] == s[b]);
                } else {
                    assert(s.push(rec@)[a] == s[a]);
                    assert(s.push(rec@)[b] == rec@);
                }
            }
        }
    }

    /// Removes every record of the given task: afterwards the ledger is the
    /// old one with all keys of that task gone, other entries unchanged.
    /// Invoked when a task is deleted, so that a later task reusing the id
    /// cannot resurrect stale deduplication state.
    pub fn delete_for_task(&mut self, task_id: &str)
        requires
            old(self).wf(),
        ensures
            final(self).wf(),
            final(self)@ == old(self)@.remove_keys(
                Set::new(|k: (Seq<char>, int)| k.0 == task_id@),
            ),
    {
        let ghost p = (|r: RecordSpec| r.task_id != task_id@);
        let ghost s0 = self.records.deep_view();
        let n = self.records.len();
        let mut kept: Vec<DeliveryRecord> = Vec::new();
        let mut i: usize = 0;
        while i < n
            invariant
                n == self.records@.len(),
                i <= n,
                p == (|r: RecordSpec| r.task_id != task_id@),
                s0 == self.records.deep_view(),
                kept.deep_view() =~= keep_records(s0.take(i as int), p),
            decreases n - i,
        {
            let rec = &self.records[i];
            let ghost kv = kept.deep_view();
            if !str_eq(rec.task_id.as_str(), task_id) {
                kept.push(rec.clone_record());
            }
            proof {
                assert(s0.take(i + 1).drop_last() =~= s0.take(i as int));
                assert(s0.take(i + 1).last() == s0[i as int]);
                if p(s0[i as int]) {
                    assert(kept.deep_view() =~= kv.push(s0[i as int]));
                }
                assert(kept.deep_view() =~= keep_records(s0.take(i + 1), p));
            }
            i = i + 1;
        }
        proof {
            assert(s0.take(n as int) =~= s0);
        }
        self.records = kept;
        proof {
            lemma_keep_records_map(s0, p);
            lemma_ledger_map_dom(s0);
            assert(ledger_map(keep_records(s0, p)) =~= ledger_map(s0).remove_keys(
                Set::new(|k: (Seq<char>, int)| k.0 == task_id@),
            ));
        }
    }

    /// Removes exactly the records whose `sent_at` lies before the retention
    /// window measured back from `now`; records inside the window survive
    /// unchanged.
    pub fn cleanup(&mut self, now: i64)
        requires
            old(self).wf(),
            now >= i64::MIN + RETENTION_SECONDS,
        ensures
            final(self).wf(),
            final(self)@ == Map::new(
                |k: (Seq<char>, int)|
                    old(self)@.dom().contains(k) && old(self)@[k].sent_at >= now - RETENTION_SECONDS,
                |k: (Seq<char>, int)| old(self)@[k],
            ),
    {
        let cutoff = now - RETENTION_SECONDS;
        let ghost p = (|r: RecordSpec| r.sent_at >= now - RETENTION_SECONDS);
        let ghost s0 = self.records.deep_view();
        let n = self.records.len();
        let mut kept: Vec<DeliveryRecord> = Vec::new();
        let mut i: usize = 0;
        while i < n
            invariant
                n == self.records@.len(),
                i <= n,
                p == (|r: RecordSpec| r.sent_at >= now - RETENTION_SECONDS),
                s0 == self.records.deep_view(),
                cutoff == now - RETENTION_SECONDS,
                kept.deep_view() =~= keep_records(s0.take(i as int), p),
            decreases n - i,
        {
            let rec = &self.records[i];
            let ghost kv = kept.deep_view();
            if rec.sent_at >= cutoff {
                kept.push(rec.clone_record());
            }
            proof {
                assert(s0.take(i + 1).drop_last() =~= s0.take(i as int));
                assert(s0.take(i + 1).last() == s0[i as int]);
                if p(s0[i as int]) {
                    assert(kept.deep_view() =~= kv.push(s0[i as int]));
                }
                assert(kept.deep_view() =~= keep_records(s0.take(i + 1), p));
            }
            i = i + 1;
        }
        proof {
            assert(s0.take(n as int) =~= s0);
        }
        self.records = kept;
        proof {
            lemma_keep_records_map(s0, p);
        }
    }

    /// The record delivered under `(task_id, reminder_time)`, if any.
    pub fn lookup(&self, task_id: &str, reminder_time: i64) -> (r: Option<&DeliveryRecord>)
        requires
            self.wf(),
        ensures
            match r {
                Some(rec) => self@.dom().contains((task_id@, reminder_time as int)) && rec@
                    == self@[(task_id@, reminder_time as int)],
                None => !self@.dom().contains((task_id@, reminder_time as int)),
            },
    {
        let ghost key = (task_id@, reminder_time as int);
        let n = self.records.len();
        let mut i: usize = 0;
        while i < n
            invariant
                n == self.records@.len(),
                i <= n,
                key == (task_id@, reminder_time as int),
                self.wf(),
                forall|j: int|
                    0 <= j < i ==> record_key(#[trigger] self.records.deep_view()[j]) != key,
            decreases n - i,
        {
            let rec = &self.records[i];
            if str_eq(rec.task_id.as_str(), task_id) && rec.reminder_time == reminder_time {
                proof {
                    lemma_ledger_map_dom(self.records.deep_view());
                    lemma_ledger_map_lookup(self.records.deep_view());
                    assert(record_key(self.records.deep_view()[i as int]) == key);
                }
                return Some(&self.records[i]);
            }
            i = i + 1;
        }
        proof {
            lemma_ledger_map_dom(self.records.deep_view());
            if self@.dom().contains(key) {
                let j = choose|j: int|
                    0 <= j < self.records.deep_view().len() && record_key(
                        #[trigger] self.records.deep_view()[j],
                    ) == key;
                assert(false);
            }
        }
        None
    }

    /// How many records the ledger holds.
    pub fn len(&self) -> (n: usize)
        requires
            self.wf(),
        ensures
            n == self@.dom().len(),
    {
        proof {
            lemma_ledger_map_len(self.records.deep_view());
        }
        self.records.len()
    }

    /// The rows to persist, one per ledger entry.
    pub fn rows(&self) -> (r: &Vec<DeliveryRecord>)
        requires
            self.wf(),
        ensures
            ledger_map(r.deep_view()) == self@,
            unique_keys(r.deep_view()),
    {
        &self.records
    }
}

impl DeliveryRecord {
    /// A field-for-field copy of the record.
    pub fn clone_record(&self) -> (r: DeliveryRecord)
        ensures
            r@ == self@,
    {
        DeliveryRecord {
            record_id: self.record_id.clone(),
            task_id: self.task_id.clone(),
            reminder_time: self.reminder_time,
            sent_at: self.sent_at,
            payload_snapshot: self.payload_snapshot.clone(),
        }
    }
}

} // verus!
