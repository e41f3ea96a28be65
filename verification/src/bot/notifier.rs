//! Delivery of pending alerts, one at a time.
//!
//! Sending is the caller's. Before each send it asks `should_send`, and after
//! each send it hands the outcome to `record_outcome`; between two sends it
//! waits `SEND_PACING_MILLIS`.

use vstd::prelude::*;
use vstd::string::*;
use crate::db::model::{alerts_since, DbView};
use crate::db::repository::Db;
use crate::db::rows::AlertView;
use crate::engine::analyzer::{dedup_minutes, is_fresh, PendingAlert, PendingAlertView, HOURLY_CAP};
use crate::text::{contains_text, has_part};

verus! {

/// The pause between two sends, in milliseconds.
pub const SEND_PACING_MILLIS: u64 = 50;

/// Why a send failed.
#[derive(Clone, Copy, Debug, PartialEq, Eq, Structural)]
pub enum SendError {
    /// The user has blocked the bot; no later send will get through.
    Forbidden,
    /// Anything else; a later send may get through.
    Other,
}

/// A failure whose description holds the word `Forbidden` is final.
pub open spec fn send_error_of(description: Seq<char>) -> SendError {
    if has_part(description, "Forbidden"@) {
        SendError::Forbidden
    } else {
        SendError::Other
    }
}

/// Tells a final failure from a passing one by the transport's description.
pub fn classify_send_error(description: &str) -> (e: SendError)
    ensures
        e == send_error_of(description@),
{
    if contains_text(description, "Forbidden") {
        SendError::Forbidden
    } else {
        SendError::Other
    }
}

/// Whether the alert is to be sent at all: not where its chat has had ten
/// alerts in the hour before `now`. Such an alert is dropped without a word.
pub fn should_send(db: &Db, alert: &PendingAlert, now: i64) -> (r: bool)
    ensures
        r == (db@.count_alerts_this_hour(alert.chat_id as int, now as int) < HOURLY_CAP),
{
    db.count_alerts_this_hour(alert.chat_id, now) < HOURLY_CAP
}

/// The store after a send: the alert in the log where it was delivered,
/// the user switched off where the send was forbidden, and no change after
/// any other failure.
pub open spec fn after_send(
    db: DbView,
    alert: PendingAlertView,
    outcome: Result<(), SendError>,
    now: int,
) -> DbView {
    match outcome {
        Ok(_) => db.log_alert(alert.chat_id, alert.alert_type, alert.price, alert.region, now),
        Err(SendError::Forbidden) => db.set_active(alert.chat_id, false, now),
        Err(SendError::Other) => db,
    }
}

/// Writes down what became of a send.
pub fn record_outcome(db: &mut Db, alert: &PendingAlert, outcome: Result<(), SendError>, now: i64)
    requires
        old(db).wf(),
    ensures
        final(db).wf(),
        final(db)@ == after_send(old(db)@, alert@, outcome, now as int),
{
    match outcome {
        Ok(_) => {
            db.log_alert(
                alert.chat_id,
                alert.alert_type.as_str(),
                alert.price,
                alert.region.as_str(),
                now,
            );
        },
        Err(SendError::Forbidden) => {
            db.set_active(alert.chat_id, false, now);
        },
        Err(SendError::Other) => {},
    }
}

/// How many alerts of the log went to the chat after `from` and not after `to`.
pub open spec fn alerts_between(alerts: Seq<AlertView>, chat_id: int, from: int, to: int) -> nat
    decreases alerts.len(),
{
    if alerts.len() == 0 {
        0
    } else {
        let rest = alerts_between(alerts.drop_last(), chat_id, from, to);
        if alerts.last().chat_id == chat_id && from < alerts.last().sent_at <= to {
            rest + 1
        } else {
            rest
        }
    }
}

/// No chat got more than ten alerts in any span of an hour.
pub open spec fn hourly_cap_holds(db: DbView) -> bool {
    forall|chat_id: int, from: int| #[trigger]
        alerts_between(db.alerts, chat_id, from, from + 3600) <= HOURLY_CAP
}

/// A span holds no more alerts than came after its beginning, and fewer
/// came after a later instant than after an earlier one.
proof fn lemma_between_at_most_since(
    alerts: Seq<AlertView>,
    chat_id: int,
    from: int,
    to: int,
    cutoff: int,
)
    requires
        cutoff <= from,
    ensures
        alerts_between(alerts, chat_id, from, to) <= alerts_since(alerts, chat_id, cutoff),
    decreases alerts.len(),
{
    if alerts.len() > 0 {
        lemma_between_at_most_since(alerts.drop_last(), chat_id, from, to, cutoff);
    }
}

/// The cap holds of the log after a send, if it held before and the alert
/// was sent only after `should_send` allowed it.
pub proof fn lemma_send_keeps_hourly_cap(
    db: DbView,
    alert: PendingAlertView,
    outcome: Result<(), SendError>,
    now: int,
)
    requires
        hourly_cap_holds(db),
        db.count_alerts_this_hour(alert.chat_id, now) < HOURLY_CAP,
    ensures
        hourly_cap_holds(after_send(db, alert, outcome, now)),
{
    let after = after_send(db, alert, outcome, now);
    assert forall|chat_id: int, from: int| #[trigger]
        alerts_between(after.alerts, chat_id, from, from + 3600) <= HOURLY_CAP by {
        assert(alerts_between(db.alerts, chat_id, from, from + 3600) <= HOURLY_CAP);
        if outcome is Ok {
            assert(after.alerts.drop_last() =~= db.alerts);
            if chat_id == alert.chat_id && from < now <= from + 3600 {
                lemma_between_at_most_since(db.alerts, chat_id, from, from + 3600, now - 3600);
            }
        }
    }
}

/// No two alerts of one type went to one chat within the minutes of that type.
pub open spec fn alerts_spaced(db: DbView) -> bool {
    forall|i: int, j: int|
        0 <= i < j < db.alerts.len() && db.alerts[i].chat_id == db.alerts[j].chat_id
            && db.alerts[i].alert_type == db.alerts[j].alert_type ==> db.alerts[j].sent_at
            - db.alerts[i].sent_at >= dedup_minutes(db.alerts[i].alert_type) * 60
            || db.alerts[i].sent_at - db.alerts[j].sent_at >= dedup_minutes(
            db.alerts[i].alert_type,
        ) * 60
}

/// The alerts of the log stay spaced over a send at `sent_at` of an alert
/// that, at an instant `checked_at` not after it, had none of its type and
/// chat within the minutes of its type before it.
pub proof fn lemma_send_keeps_alerts_spaced(
    db: DbView,
    alert: PendingAlertView,
    outcome: Result<(), SendError>,
    checked_at: int,
    sent_at: int,
)
    requires
        alerts_spaced(db),
        is_fresh(db, alert, checked_at),
        checked_at <= sent_at,
    ensures
        alerts_spaced(after_send(db, alert, outcome, sent_at)),
{
    let after = after_send(db, alert, outcome, sent_at);
    let w = dedup_minutes(alert.alert_type);
    if outcome is Ok {
        assert forall|i: int, j: int|
            0 <= i < j < after.alerts.len() && after.alerts[i].chat_id == after.alerts[j].chat_id
                && after.alerts[i].alert_type
                == after.alerts[j].alert_type implies after.alerts[j].sent_at
            - after.alerts[i].sent_at >= dedup_minutes(after.alerts[i].alert_type) * 60
            || after.alerts[i].sent_at - after.alerts[j].sent_at >= dedup_minutes(
            after.alerts[i].alert_type,
        ) * 60 by {
            if j < db.alerts.len() {
                assert(after.alerts[i] == db.alerts[i] && after.alerts[j] == db.alerts[j]);
            } else {
                assert(after.alerts[i] == db.alerts[i]);
                assert(!(db.alerts[i].sent_at > checked_at - w * 60));
            }
        }
    }
}

/// One turn of the notifier: an alert, the instant of its turn, and what
/// comes of the send if it is sent.
pub ghost struct Delivery {
    pub alert: PendingAlertView,
    pub at: int,
    pub outcome: Result<(), SendError>,
}

/// The store after the notifier has gone through a run of alerts: each is
/// sent where `should_send` allows it at its turn, and what came of the
/// send is written down; the others are dropped.
pub open spec fn after_deliveries(db: DbView, turns: Seq<Delivery>) -> DbView
    decreases turns.len(),
{
    if turns.len() == 0 {
        db
    } else {
        let before = after_deliveries(db, turns.drop_last());
        let turn = turns.last();
        if before.count_alerts_this_hour(turn.alert.chat_id, turn.at) < HOURLY_CAP {
            after_send(before, turn.alert, turn.outcome, turn.at)
        } else {
            before
        }
    }
}

/// Whatever alerts go through the notifier, at whatever instants and with
/// whatever outcomes, no chat gets more than ten in any span of an hour.
pub proof fn lemma_deliveries_keep_hourly_cap(db: DbView, turns: Seq<Delivery>)
    requires
        hourly_cap_holds(db),
    ensures
        hourly_cap_holds(after_deliveries(db, turns)),
    decreases turns.len(),
{
    if turns.len() > 0 {
        lemma_deliveries_keep_hourly_cap(db, turns.drop_last());
        let before = after_deliveries(db, turns.drop_last());
        let turn = turns.last();
        if before.count_alerts_this_hour(turn.alert.chat_id, turn.at) < HOURLY_CAP {
            lemma_send_keeps_hourly_cap(before, turn.alert, turn.outcome, turn.at);
        }
    }
}

/// An empty log is within the cap and spaced.
pub proof fn lemma_empty_log_is_in_order(db: DbView)
    requires
        db.alerts.len() == 0,
    ensures
        hourly_cap_holds(db),
        alerts_spaced(db),
{
}

/// An alert stays fresh over the send of another that differs from it in
/// chat or in type; so a batch whose alerts differ from each other in chat
/// or type can be sent one after the other without a repeat.
pub proof fn lemma_other_sends_keep_freshness(
    db: DbView,
    alert: PendingAlertView,
    other: PendingAlertView,
    outcome: Result<(), SendError>,
    checked_at: int,
    sent_at: int,
)
    requires
        is_fresh(db, alert, checked_at),
        other.chat_id != alert.chat_id || other.alert_type != alert.alert_type,
    ensures
        is_fresh(after_send(db, other, outcome, sent_at), alert, checked_at),
{
    let after = after_send(db, other, outcome, sent_at);
    let w = dedup_minutes(alert.alert_type);
    if after.was_alert_sent_recently(alert.chat_id, alert.alert_type, w, checked_at) {
        let i = choose|i: int|
            0 <= i < after.alerts.len() && after.alerts[i].chat_id == alert.chat_id
                && after.alerts[i].alert_type == alert.alert_type && after.alerts[i].sent_at
                > checked_at - w * 60;
        if i < db.alerts.len() {
            assert(after.alerts[i] == db.alerts[i]);
        }
    }
}

} // verus!
