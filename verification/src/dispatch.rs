//! Dispatch planning and completion. For one due occurrence the coordinator
//! plans the ordered channel attempts (system toast, then the optional
//! webhook), and after the attempts commits a delivery record. Channel
//! failure never prevents the commit: delivery marking is "attempted", not
//! "confirmed", so an unreachable channel cannot cause a re-notification
//! storm.

use vstd::prelude::*;

use crate::ledger::DeliveryLedger;
use crate::model::{DeliveryRecord, NotificationSettings, RecordSpec, ReminderTask};
use crate::trusted::{chars_to_string, format_rfc3339_epoch, rfc3339_of_epoch};

verus! {

/// The hexadecimal digit characters, lower case.
pub open spec fn spec_hex_digit(n: int) -> char {
    seq![
        '0',
        '1',
        '2',
        '3',
        '4',
        '5',
        '6',
        '7',
        '8',
        '9',
        'a',
        'b',
        'c',
        'd',
        'e',
        'f',
    ][n]
}

/// How one character is written inside a JSON string: quote, backslash and
/// the named control characters get a two-character escape, the remaining
/// control characters a `\u00XX` escape, and every other character stands as
/// itself.
pub open spec fn spec_escape_char(c: char) -> Seq<char> {
    if c == '"' {
        seq!['\\', '"']
    } else if c == '\\' {
        seq!['\\', '\\']
    } else if c == '\u{08}' {
        seq!['\\', 'b']
    } else if c == '\u{0c}' {
        seq!['\\', 'f']
    } else if c == '\n' {
        seq!['\\', 'n']
    } else if c == '\r' {
        seq!['\\', 'r']
    } else if c == '\t' {
        seq!['\\', 't']
    } else if (c as u32) < 0x20 {
        seq!['\\', 'u', '0', '0', spec_hex_digit(c as u32 as int / 16), spec_hex_digit(
            c as u32 as int % 16,
        )]
    } else {
        seq![c]
    }
}

/// The JSON string encoding of a character sequence.
pub open spec fn spec_escape(s: Seq<char>) -> Seq<char>
    decreases s.len(),
{
    if s.len() == 0 {
        Seq::empty()
    } else {
        spec_escape(s.drop_last()) + spec_escape_char(s.last())
    }
}

/// The webhook body for a notification: a JSON text message whose content is
/// the title and the content joined by a blank line.
pub open spec fn spec_webhook_payload(title: Seq<char>, content: Seq<char>) -> Seq<char> {
    "{\"msgtype\":\"text\",\"text\":{\"content\":\""@ + spec_escape(
        title + "\n\n"@ + content,
    ) + "\"}}"@
}

/// The payload snapshot a delivery record carries for audit: the occurrence's
/// normalized date and repeat tag as a JSON object.
pub open spec fn spec_snapshot(reminder_time: int, repeat: Seq<char>) -> Seq<char> {
    "{\"date\":\""@ + spec_escape(rfc3339_of_epoch(reminder_time)) + "\",\"repeat\":\""@
        + spec_escape(repeat) + "\"}"@
}

fn hex_digit(n: u32) -> (c: char)
    requires
        n < 16,
    ensures
        c == spec_hex_digit(n as int),
{
    if n == 0 {
        '0'
    } else if n == 1 {
        '1'
    } else if n == 2 {
        '2'
    } else if n == 3 {
        '3'
    } else if n == 4 {
        '4'
    } else if n == 5 {
        '5'
    } else if n == 6 {
        '6'
    } else if n == 7 {
        '7'
    } else if n == 8 {
        '8'
    } else if n == 9 {
        '9'
    } else if n == 10 {
        'a'
    } else if n == 11 {
        'b'
    } else if n == 12 {
        'c'
    } else if n == 13 {
        'd'
    } else if n == 14 {
        'e'
    } else {
        'f'
    }
}

/// Appends the characters of `s` to `out` unchanged.
fn push_chars(out: &mut Vec<char>, s: &str)
    ensures
        final(out)@ == old(out)@ + s@,
{
    let ghost base = out@;
    let n = s.unicode_len();
    let mut i: usize = 0;
    while i < n
        invariant
            n == s@.len(),
            i <= n,
            out@ =~= base + s@.take(i as int),
        decreases n - i,
    {
        let c = s.get_char(i);
        out.push(c);
        proof {
            assert(s@.take(i + 1) =~= s@.take(i as int).push(s@[i as int]));
        }
        i = i + 1;
    }
    proof {
        assert(s@.take(n as int) =~= s@);
    }
}

/// Appends the JSON string encoding of `s` to `out`.
fn push_escaped(out: &mut Vec<char>, s: &str)
    ensures
        final(out)@ == old(out)@ + spec_escape(s@),
{
    let ghost base = out@;
    let n = s.unicode_len();
    let mut i: usize = 0;
    while i < n
        invariant
            n == s@.len(),
            i <= n,
            out@ =~= base + spec_escape(s@.take(i as int)),
        decreases n - i,
    {
        let c = s.get_char(i);
        if c == '"' {
            out.push('\\');
            out.push('"');
        } else if c == '\\' {
            out.push('\\');
            out.push('\\');
        } else if c == '\u{08}' {
            out.push('\\');
            out.push('b');
        } else if c == '\u{0c}' {
            out.push('\\');
            out.push('f');
        } else if c == '\n' {
            out.push('\\');
            out.push('n');
        } else if c == '\r' {
            out.push('\\');
            out.push('r');
        } else if c == '\t' {
            out.push('\\');
            out.push('t');
        } else if (c as u32) < 0x20 {
            let code = c as u32;
            out.push('\\');
            out.push('u');
            out.push('0');
            out.push('0');
            out.push(hex_digit(code / 16));
            out.push(hex_digit(code % 16));
        } else {
            out.push(c);
        }
        proof {
            assert(s@.take(i + 1).drop_last() =~= s@.take(i as int));
            assert(s@.take(i + 1).last() == s@[i as int]);
            assert(out@ =~= base + spec_escape(s@.take(i + 1)));
        }
        i = i + 1;
    }
    proof {
        assert(s@.take(n as int) =~= s@);
    }
}

/// Builds the webhook body for a notification title and content.
pub fn webhook_payload(title: &str, content: &str) -> (r: String)
    ensures
        r@ == spec_webhook_payload(title@, content@),
{
    let joined = String::from_str(title).concat("\n\n").concat(content);
    proof {
        assert(joined@ =~= title@ + "\n\n"@ + content@);
    }
    let mut buf: Vec<char> = Vec::new();
    push_chars(&mut buf, "{\"msgtype\":\"text\",\"text\":{\"content\":\"");
    push_escaped(&mut buf, joined.as_str());
    push_chars(&mut buf, "\"}}");
    proof {
        assert(buf@ =~= spec_webhook_payload(title@, content@));
    }
    chars_to_string(&buf)
}

/// Builds the payload snapshot of a delivery record: the occurrence's
/// normalized RFC 3339 date and its repeat tag.
pub fn build_snapshot(reminder_time: i64, repeat: &str) -> (r: String)
    ensures
        r@ == spec_snapshot(reminder_time as int, repeat@),
{
    let date = format_rfc3339_epoch(reminder_time);
    let mut buf: Vec<char> = Vec::new();
    push_chars(&mut buf, "{\"date\":\"");
    push_escaped(&mut buf, date.as_str());
    push_chars(&mut buf, "\",\"repeat\":\"");
    push_escaped(&mut buf, repeat);
    push_chars(&mut buf, "\"}");
    proof {
        assert(buf@ =~= spec_snapshot(reminder_time as int, repeat@));
    }
    chars_to_string(&buf)
}

/// The webhook attempt of a dispatch plan: where to post and what.
#[derive(Debug, Clone)]
pub struct WebhookCall {
    pub url: String,
    pub payload: String,
}

/// The planned channel attempts for one due occurrence: the system toast,
/// and the webhook call where a webhook is configured.
#[derive(Debug, Clone)]
pub struct DispatchPlan {
    pub toast_title: String,
    pub toast_body: String,
    pub webhook: Option<WebhookCall>,
}

/// The outcome of the channel attempts for one occurrence, aggregated so a
/// pass can report partial failure instead of discarding it.
#[derive(Debug, Clone, PartialEq, Eq, Structural)]
pub struct DispatchOutcome {
    pub toast_ok: bool,
    pub webhook_attempted: bool,
    pub webhook_ok: bool,
}

/// Plans the channel attempts for one due reminder: a toast with the fixed
/// reminder title and the task's title in the body, and, exactly where the
/// settings hold a webhook, one webhook call carrying the same text.
pub fn plan_dispatch(settings: &NotificationSettings, reminder: &ReminderTask) -> (p:
    DispatchPlan)
    ensures
        p.toast_title@ == "任务提醒"@,
        p.toast_body@ == "任务: "@ + reminder.task_title@,
        match settings.wechat_webhook {
            Some(u) => p.webhook matches Some(c) && c.url@ == u@ && c.payload@
                == spec_webhook_payload("任务提醒"@, "任务: "@ + reminder.task_title@),
            None => p.webhook is None,
        },
{
    let title = String::from_str("任务提醒");
    let body = String::from_str("任务: ").concat(reminder.task_title.as_str());
    let webhook = match &settings.wechat_webhook {
        Some(u) => Some(
            WebhookCall { url: u.clone(), payload: webhook_payload("任务提醒", body.as_str()) },
        ),
        None => None,
    };
    DispatchPlan { toast_title: title, toast_body: body, webhook }
}

/// The record committed for one dispatched occurrence.
pub open spec fn committed_record(reminder: ReminderTask, sent_at: int) -> RecordSpec {
    RecordSpec {
        record_id: reminder.id@,
        task_id: reminder.task_id@,
        reminder_time: reminder.reminder_time as int,
        sent_at: sent_at,
        payload_snapshot: spec_snapshot(reminder.reminder_time as int, reminder.repeat@),
    }
}

/// The ledger after one dispatched occurrence is committed. The channel
/// outcomes are taken and ignored: the commit happens whatever they were.
pub open spec fn spec_complete(
    m: Map<(Seq<char>, int), RecordSpec>,
    reminder: ReminderTask,
    outcome: DispatchOutcome,
    sent_at: int,
) -> Map<(Seq<char>, int), RecordSpec> {
    m.insert((reminder.task_id@, reminder.reminder_time as int), committed_record(
        reminder,
        sent_at,
    ))
}

/// After all planned channel attempts for one occurrence, commits its
/// delivery record (an upsert under the occurrence's key), carrying a
/// snapshot of the normalized date and repeat tag for audit.
pub fn complete_dispatch(
    ledger: &mut DeliveryLedger,
    reminder: &ReminderTask,
    outcome: &DispatchOutcome,
    sent_at: i64,
)
    requires
        old(ledger).wf(),
    ensures
        final(ledger).wf(),
        final(ledger)@ == spec_complete(old(ledger)@, *reminder, *outcome, sent_at as int),
{
    let snapshot = build_snapshot(reminder.reminder_time, reminder.repeat.as_str());
    let rec = DeliveryRecord {
        record_id: reminder.id.clone(),
        task_id: reminder.task_id.clone(),
        reminder_time: reminder.reminder_time,
        sent_at,
        payload_snapshot: snapshot,
    };
    ledger.record(rec);
}

/// The ledger write after a dispatch does not depend on how the channel
/// attempts went: a failed toast or an unreachable webhook leaves the same
/// record as full success, so the occurrence is never re-notified.
pub proof fn lemma_commit_outcome_independent(
    m: Map<(Seq<char>, int), RecordSpec>,
    reminder: ReminderTask,
    o1: DispatchOutcome,
    o2: DispatchOutcome,
    sent_at: int,
)
    ensures
        spec_complete(m, reminder, o1, sent_at) == spec_complete(m, reminder, o2, sent_at),
{
}

} // verus!
