//! The confirmation messages of the operations that return no record.

use vstd::prelude::*;
use vstd::string::{StringExecFns, to_string_from_display_ensures};

verus! {

/// The confirmation of `init_system`, with both ids given as text.
pub open spec fn init_text(admin: Seq<char>, station: Seq<char>) -> Seq<char> {
    "System initialized with admin "@ + admin + " and station "@ + station
}

/// The confirmation of `refund_ticket`, with the ticket's id given as text.
pub open spec fn refund_text(ticket: Seq<char>) -> Seq<char> {
    "Ticket "@ + ticket + " refunded successfully"@
}

/// The confirmation of `close_train`, with the train's id given as text.
pub open spec fn close_text(train: Seq<char>) -> Seq<char> {
    "Train "@ + train + " closed successfully"@
}

/// `text` is what `to_string` gives for `n`.
pub open spec fn is_text_of(text: Seq<char>, n: u64) -> bool {
    exists|s: String| #[trigger] to_string_from_display_ensures::<u64>(&n, s) && s@ == text
}

/// `m` confirms that `init_system` registered `admin_id` and created `station_id`.
pub open spec fn is_init_message(m: Seq<char>, admin_id: u64, station_id: u64) -> bool {
    exists|a: Seq<char>, s: Seq<char>|
        is_text_of(a, admin_id) && is_text_of(s, station_id) && m == #[trigger] init_text(a, s)
}

/// `m` confirms the refund of ticket `ticket_id`.
pub open spec fn is_refund_message(m: Seq<char>, ticket_id: u64) -> bool {
    exists|t: Seq<char>| is_text_of(t, ticket_id) && m == #[trigger] refund_text(t)
}

/// `m` confirms the closure of train `train_id`.
pub open spec fn is_close_message(m: Seq<char>, train_id: u64) -> bool {
    exists|t: Seq<char>| is_text_of(t, train_id) && m == #[trigger] close_text(t)
}

/// Builds the confirmation of `init_system` from the two ids as text.
pub fn init_message(admin: &str, station: &str) -> (m: String)
    ensures
        m@ == init_text(admin@, station@),
{
    let mut m = "System initialized with admin ".to_owned();
    m.append(admin);
    m.append(" and station ");
    m.append(station);
    m
}

/// Builds the confirmation of `refund_ticket` from the ticket's id as text.
pub fn refund_message(ticket: &str) -> (m: String)
    ensures
        m@ == refund_text(ticket@),
{
    let mut m = "Ticket ".to_owned();
    m.append(ticket);
    m.append(" refunded successfully");
    m
}

/// Builds the confirmation of `close_train` from the train's id as text.
pub fn close_message(train: &str) -> (m: String)
    ensures
        m@ == close_text(train@),
{
    let mut m = "Train ".to_owned();
    m.append(train);
    m.append(" closed successfully");
    m
}

/// The confirmation of `init_system` for the two ids.
pub fn init_confirmation(admin_id: u64, station_id: u64) -> (m: String)
    ensures
        is_init_message(m@, admin_id, station_id),
{
    let a = admin_id.to_string();
    let s = station_id.to_string();
    let m = init_message(a.as_str(), s.as_str());
    proof {
        assert(is_text_of(a@, admin_id));
        assert(is_text_of(s@, station_id));
        assert(m@ == init_text(a@, s@));
    }
    m
}

/// The confirmation of `refund_ticket` for the ticket's id.
pub fn refund_confirmation(ticket_id: u64) -> (m: String)
    ensures
        is_refund_message(m@, ticket_id),
{
    let t = ticket_id.to_string();
    let m = refund_message(t.as_str());
    proof {
        assert(is_text_of(t@, ticket_id));
        assert(m@ == refund_text(t@));
    }
    m
}

/// The confirmation of `close_train` for the train's id.
pub fn close_confirmation(train_id: u64) -> (m: String)
    ensures
        is_close_message(m@, train_id),
{
    let t = train_id.to_string();
    let m = close_message(t.as_str());
    proof {
        assert(is_text_of(t@, train_id));
        assert(m@ == close_text(t@));
    }
    m
}

} // verus!
