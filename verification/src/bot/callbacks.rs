//! The choice of a region from the keyboard below a message.

use vstd::prelude::*;
use vstd::string::*;
use crate::bot::messages::{confirm_region, confirm_region_text};
use crate::db::model::DbView;
use crate::db::repository::Db;
use crate::db::rows::{DEFAULT_HIGH_ALERT, DEFAULT_LOW_ALERT};
use crate::text::{chars_of, has_prefix, starts_with, text_of};

verus! {

/// The region that the data of a pressed button names: what follows
/// `region:`, and nothing for any other data.
pub open spec fn chosen_region(data: Option<Seq<char>>) -> Option<Seq<char>> {
    match data {
        Some(d) => if has_prefix(d, "region:"@) {
            Some(d.skip(7))
        } else {
            None
        },
        None => None,
    }
}

/// The store after a button was pressed: with the user of the chat in the
/// region chosen, where one was chosen.
pub open spec fn callback_store(db: DbView, chat_id: int, data: Option<Seq<char>>, now: int)
    -> DbView {
    match chosen_region(data) {
        Some(region) => db.upsert_user(chat_id, region, now),
        None => db,
    }
}

/// The confirmation that goes back after a button was pressed.
pub open spec fn callback_reply(db: DbView, chat_id: int, data: Option<Seq<char>>, now: int)
    -> Option<Seq<char>> {
    match chosen_region(data) {
        Some(region) => {
            let after = db.upsert_user(chat_id, region, now);
            Some(
                match after.get_user(chat_id) {
                    Some(u) => confirm_region_text(region, u.high_alert, u.low_alert),
                    None => confirm_region_text(
                        region,
                        DEFAULT_HIGH_ALERT as int,
                        DEFAULT_LOW_ALERT as int,
                    ),
                },
            )
        },
        None => None,
    }
}

/// The data of a button as a value, where it has any.
pub open spec fn data_view(data: Option<&str>) -> Option<Seq<char>> {
    match data {
        Some(d) => Some(d@),
        None => None,
    }
}

/// Serves a pressed button: data of the form `region:NAME` stores the user
/// of the chat in that region and confirms it with the thresholds in force;
/// any other data, and none, does nothing.
pub fn handle(db: &mut Db, chat_id: i64, data: Option<&str>, now: i64) -> (r: Option<String>)
    requires
        old(db).wf(),
    ensures
        final(db).wf(),
        final(db)@ == callback_store(old(db)@, chat_id as int, data_view(data), now as int),
        match r {
            Some(text) => callback_reply(old(db)@, chat_id as int, data_view(data), now as int)
                == Some(text@),
            None => callback_reply(old(db)@, chat_id as int, data_view(data), now as int)
                is None,
        },
{
    let d = match data {
        Some(d) => d,
        None => {
            return None;
        },
    };
    if !starts_with(d, "region:") {
        return None;
    }
    proof {
        reveal_strlit("region:");
    }
    let chars = chars_of(d);
    let region = text_of(chars.as_slice(), 7, chars.len());
    assert(region@ =~= d@.skip(7));
    db.upsert_user(chat_id, region.as_str(), now);
    let text = match db.get_user(chat_id) {
        Some(u) => confirm_region(region.as_str(), u.high_alert, u.low_alert),
        None => confirm_region(region.as_str(), DEFAULT_HIGH_ALERT, DEFAULT_LOW_ALERT),
    };
    Some(text)
}

} // verus!
