//! What holds of every state that the operations can reach.

use vstd::prelude::*;
use vstd::set_lib::{lemma_int_range, lemma_len_subset, lemma_map_size, set_int_range};
use crate::types::{BookingStatus, ErrorKind, TicketView, TrainView, seat_status};
use crate::model::{
    SystemView, first_station_named, has_station, has_station_named, has_ticket, has_train,
    is_first_station_named, lemma_first_station_exists, lemma_first_station_named,
    lemma_first_station_same, lemma_names_kept, lemma_push_contains, lemma_without_contains,
    station_at, station_named_at, ticket_at, ticket_index, train_at, train_index,
    without_train_id,
};

verus! {

/// Where the stations keep their names and the trains their ids and departure
/// names, place by place, the same trains are attached to the same stations.
proof fn lemma_attached_same(s: SystemView, t: SystemView, j: int, x: u64)
    requires
        s.stations.len() <= t.stations.len(),
        forall|i: int| 0 <= i < s.stations.len() ==> #[trigger] t.stations[i].name == s.stations[i].name,
        0 <= j < s.stations.len(),
        t.trains.len() == s.trains.len(),
        forall|i: int|
            0 <= i < s.trains.len() ==> (#[trigger] t.trains[i]).id == s.trains[i].id
                && t.trains[i].departure_station == s.trains[i].departure_station,
    ensures
        t.attached(j, x) == s.attached(j, x),
{
    if t.attached(j, x) {
        let i = choose|i: int| #[trigger]
            train_at(t.trains, x, i) && is_first_station_named(
                t.stations,
                t.trains[i].departure_station,
                j,
            );
        assert(t.trains[i].id == s.trains[i].id);
        lemma_first_station_same(s.stations, t.stations, s.trains[i].departure_station, j);
        assert(train_at(s.trains, x, i));
    }
    if s.attached(j, x) {
        let i = choose|i: int| #[trigger]
            train_at(s.trains, x, i) && is_first_station_named(
                s.stations,
                s.trains[i].departure_station,
                j,
            );
        assert(t.trains[i].id == s.trains[i].id);
        lemma_first_station_same(s.stations, t.stations, s.trains[i].departure_station, j);
        assert(train_at(t.trains, x, i));
    }
}

proof fn lemma_init_system_attached(s: SystemView, admin_id: u64, name: Seq<char>, funds: u64)
    requires
        s.wf(),
    ensures
        s.init_system(admin_id, name, funds).trains_attached(),
{
    let t = s.init_system(admin_id, name, funds);
    let fresh = s.stations.len() as int;
    assert forall|j: int, x: u64| 0 <= j < t.stations.len() implies (
    #[trigger] t.stations[j].train_ids.contains(x) <==> t.attached(j, x)) by {
        if j < fresh {
            lemma_attached_same(s, t, j, x);
            assert(s.stations[j].train_ids.contains(x) <==> s.attached(j, x));
        } else {
            if t.attached(j, x) {
                let i = choose|i: int| #[trigger]
                    train_at(t.trains, x, i) && is_first_station_named(
                        t.stations,
                        t.trains[i].departure_station,
                        j,
                    );
                let d = s.trains[i].departure_station;
                assert(has_station_named(s.stations, d));
                let w = choose|w: int| station_named_at(s.stations, d, w);
                assert(station_named_at(t.stations, d, w));
            }
        }
    }
}

proof fn lemma_create_train_attached(
    s: SystemView,
    admin_id: u64,
    departure: Seq<char>,
    arrival: Seq<char>,
    seat_count: u64,
    price: u64,
    schedule: u64,
)
    requires
        s.wf(),
        s.next_id < u64::MAX,
        s.create_train_refusal(admin_id, departure, arrival) is None,
    ensures
        s.create_train(admin_id, departure, arrival, seat_count, price, schedule).trains_attached(),
{
    let t = s.create_train(admin_id, departure, arrival, seat_count, price, schedule);
    lemma_first_station_exists(s.stations, departure);
    let at = first_station_named(s.stations, departure);
    let last = s.trains.len() as int;
    let id = s.next_id;
    assert forall|j: int, x: u64| 0 <= j < t.stations.len() implies (
    #[trigger] t.stations[j].train_ids.contains(x) <==> t.attached(j, x)) by {
        assert(s.stations[j].train_ids.contains(x) <==> s.attached(j, x));
        if j == at {
            lemma_push_contains(s.stations[at].train_ids, id, x);
        }
        // what the old trains contribute
        if s.attached(j, x) {
            let i = choose|i: int| #[trigger]
                train_at(s.trains, x, i) && is_first_station_named(
                    s.stations,
                    s.trains[i].departure_station,
                    j,
                );
            lemma_first_station_same(s.stations, t.stations, s.trains[i].departure_station, j);
            assert(train_at(t.trains, x, i));
            assert(t.attached(j, x));
        }
        // what the new train contributes
        if j == at && x == id {
            lemma_first_station_same(s.stations, t.stations, departure, j);
            assert(train_at(t.trains, x, last));
            assert(t.attached(j, x));
        }
        if t.attached(j, x) {
            let i = choose|i: int| #[trigger]
                train_at(t.trains, x, i) && is_first_station_named(
                    t.stations,
                    t.trains[i].departure_station,
                    j,
                );
            lemma_first_station_same(s.stations, t.stations, t.trains[i].departure_station, j);
            if i == last {
                lemma_first_station_named(s.stations, departure, j);
            } else {
                assert(train_at(s.trains, x, i));
                assert(s.attached(j, x));
            }
        }
    }
}

proof fn lemma_close_train_attached(s: SystemView, admin_id: u64, train_id: u64)
    requires
        s.wf(),
        s.close_train_refusal(admin_id, train_id) is None,
    ensures
        s.close_train(admin_id, train_id).trains_attached(),
{
    let t = s.close_train(admin_id, train_id);
    let i0 = train_index(s.trains, train_id);
    assert(train_at(s.trains, train_id, i0));
    let d0 = s.trains[i0].departure_station;
    assert(has_station_named(s.stations, d0));
    lemma_first_station_exists(s.stations, d0);
    let at = first_station_named(s.stations, d0);
    assert forall|j: int, x: u64| 0 <= j < t.stations.len() implies (
    #[trigger] t.stations[j].train_ids.contains(x) <==> t.attached(j, x)) by {
        assert(s.stations[j].train_ids.contains(x) <==> s.attached(j, x));
        if j == at {
            lemma_without_contains(s.stations[at].train_ids, train_id, x);
        }
        if s.attached(j, x) {
            let i = choose|i: int| #[trigger]
                train_at(s.trains, x, i) && is_first_station_named(
                    s.stations,
                    s.trains[i].departure_station,
                    j,
                );
            lemma_first_station_same(s.stations, t.stations, s.trains[i].departure_station, j);
            if i == i0 {
                lemma_first_station_named(s.stations, d0, j);
            } else {
                let ii = if i < i0 { i } else { i - 1 };
                assert(t.trains[ii] == s.trains[i]);
                assert(train_at(t.trains, x, ii));
                assert(t.attached(j, x));
                if x == train_id {
                    s.lemma_train_index(train_id, i);
                }
            }
        }
        if t.attached(j, x) {
            let i = choose|i: int| #[trigger]
                train_at(t.trains, x, i) && is_first_station_named(
                    t.stations,
                    t.trains[i].departure_station,
                    j,
                );
            let ii = if i < i0 { i } else { i + 1 };
            assert(t.trains[i] == s.trains[ii]);
            lemma_first_station_same(s.stations, t.stations, s.trains[ii].departure_station, j);
            assert(train_at(s.trains, x, ii));
            assert(s.attached(j, x));
            if x == train_id {
                s.lemma_train_index(train_id, ii);
            }
        }
    }
}

proof fn lemma_seat_change_attached(s: SystemView, t: SystemView)
    requires
        s.wf(),
        t.stations == s.stations,
        t.trains.len() == s.trains.len(),
        forall|i: int|
            0 <= i < s.trains.len() ==> (#[trigger] t.trains[i]).id == s.trains[i].id
                && t.trains[i].departure_station == s.trains[i].departure_station,
    ensures
        t.trains_attached(),
{
    assert forall|j: int, x: u64| 0 <= j < t.stations.len() implies (
    #[trigger] t.stations[j].train_ids.contains(x) <==> t.attached(j, x)) by {
        lemma_attached_same(s, t, j, x);
        assert(s.stations[j].train_ids.contains(x) <==> s.attached(j, x));
    }
}

/// The initial state is well formed.
pub proof fn lemma_initial_wf()
    ensures
        SystemView::initial().wf(),
{
}

/// `init_system` keeps the state well formed.
pub proof fn lemma_init_system_wf(s: SystemView, admin_id: u64, name: Seq<char>, funds: u64)
    requires
        s.wf(),
        s.next_id < u64::MAX,
    ensures
        s.init_system(admin_id, name, funds).wf(),
{
    let t = s.init_system(admin_id, name, funds);
    lemma_init_system_attached(s, admin_id, name, funds);
    assert forall|i: int| 0 <= i < t.trains.len() implies has_station_named(
        t.stations,
        #[trigger] t.trains[i].departure_station,
    ) && has_station_named(t.stations, t.trains[i].arrival_station) by {
        assert(has_station_named(s.stations, s.trains[i].departure_station));
        lemma_names_kept(s.stations, t.stations, s.trains[i].departure_station);
        lemma_names_kept(s.stations, t.stations, s.trains[i].arrival_station);
    }
    assert forall|k: int, i: int, n: u64| #[trigger] t.holds_seat(k, i, n) implies seat_status(
        t.trains[i].seats,
        n,
    ) == Some(BookingStatus::Booked) by {
        assert(s.holds_seat(k, i, n));
    }
    assert forall|k1: int, k2: int, i: int, n: u64| #[trigger]
        t.holds_seat(k1, i, n) && #[trigger] t.holds_seat(k2, i, n) implies k1 == k2 by {
        assert(s.holds_seat(k1, i, n) && s.holds_seat(k2, i, n));
    }
    assert forall|i: int, n: u64|
        0 <= i < t.trains.len() && #[trigger] seat_status(t.trains[i].seats, n) == Some(
            BookingStatus::Booked,
        ) implies exists|k: int| t.holds_seat(k, i, n) by {
        let k = choose|k: int| s.holds_seat(k, i, n);
        assert(t.holds_seat(k, i, n));
    }
    assert(t.ids_ordered());
    assert(t.ids_disjoint());
    assert(t.routes_resolve());
    assert(t.trains_attached());
    assert(t.bookings_consistent());
}

/// `create_train` keeps the state well formed.
pub proof fn lemma_create_train_wf(
    s: SystemView,
    admin_id: u64,
    departure: Seq<char>,
    arrival: Seq<char>,
    seat_count: u64,
    price: u64,
    schedule: u64,
)
    requires
        s.wf(),
        s.next_id < u64::MAX,
    ensures
        s.create_train(admin_id, departure, arrival, seat_count, price, schedule).wf(),
{
    let t = s.create_train(admin_id, departure, arrival, seat_count, price, schedule);
    if s.create_train_refusal(admin_id, departure, arrival) is None {
        lemma_create_train_attached(s, admin_id, departure, arrival, seat_count, price, schedule);
        lemma_first_station_exists(s.stations, departure);
        let last = s.trains.len() as int;
        assert forall|i: int| 0 <= i < t.stations.len() implies #[trigger] t.stations[i].id
            == s.stations[i].id by {}
        assert forall|i: int| 0 <= i < t.trains.len() implies has_station_named(
            t.stations,
            #[trigger] t.trains[i].departure_station,
        ) && has_station_named(t.stations, t.trains[i].arrival_station) by {
            if i == last {
                lemma_names_kept(s.stations, t.stations, departure);
                lemma_names_kept(s.stations, t.stations, arrival);
            } else {
                assert(has_station_named(s.stations, s.trains[i].departure_station));
                lemma_names_kept(s.stations, t.stations, s.trains[i].departure_station);
                lemma_names_kept(s.stations, t.stations, s.trains[i].arrival_station);
            }
        }
        assert forall|k: int, i: int, n: u64| #[trigger] t.holds_seat(k, i, n) implies seat_status(
            t.trains[i].seats,
            n,
        ) == Some(BookingStatus::Booked) by {
            if i == last {
                assert(s.tickets[k].id < s.next_id);
            } else {
                assert(s.holds_seat(k, i, n));
            }
        }
        assert forall|k1: int, k2: int, i: int, n: u64| #[trigger]
            t.holds_seat(k1, i, n) && #[trigger] t.holds_seat(k2, i, n) implies k1 == k2 by {
            if i == last {
                assert(s.tickets[k1].id < s.next_id);
            } else {
                assert(s.holds_seat(k1, i, n) && s.holds_seat(k2, i, n));
            }
        }
        assert forall|i: int, n: u64|
            0 <= i < t.trains.len() && #[trigger] seat_status(t.trains[i].seats, n) == Some(
                BookingStatus::Booked,
            ) implies exists|k: int| t.holds_seat(k, i, n) by {
            if i != last {
                let k = choose|k: int| s.holds_seat(k, i, n);
                assert(t.holds_seat(k, i, n));
            }
        }
        assert(t.ids_ordered());
        assert(t.ids_disjoint());
        assert(t.routes_resolve());
    assert(t.trains_attached());
        assert(t.trains_attached());
        assert(t.bookings_consistent());
    }
}

/// `buy_ticket` keeps the state well formed.
pub proof fn lemma_buy_ticket_wf(
    s: SystemView,
    train_id: u64,
    owner: Seq<char>,
    seat_number: u64,
    now: u64,
)
    requires
        s.wf(),
        s.next_id < u64::MAX,
    ensures
        s.buy_ticket(train_id, owner, seat_number, now).wf(),
{
    let t = s.buy_ticket(train_id, owner, seat_number, now);
    if s.buy_ticket_refusal(train_id, seat_number) is None {
        let i0 = train_index(s.trains, train_id);
        assert(train_at(s.trains, train_id, i0));
        let knew = s.tickets.len() as int;
        assert(s.trains[i0].id < s.next_id);
        assert forall|i: int| 0 <= i < t.trains.len() implies #[trigger] t.trains[i].id
            == s.trains[i].id by {}
        lemma_seat_change_attached(s, t);
        assert forall|i: int| 0 <= i < t.trains.len() implies has_station_named(
            t.stations,
            #[trigger] t.trains[i].departure_station,
        ) && has_station_named(t.stations, t.trains[i].arrival_station) by {
            assert(has_station_named(s.stations, s.trains[i].departure_station));
            lemma_names_kept(s.stations, t.stations, s.trains[i].departure_station);
            lemma_names_kept(s.stations, t.stations, s.trains[i].arrival_station);
        }
        assert forall|k: int, i: int, n: u64| #[trigger] t.holds_seat(k, i, n) implies seat_status(
            t.trains[i].seats,
            n,
        ) == Some(BookingStatus::Booked) by {
            if k == knew {
                s.lemma_train_index(train_id, i);
            } else {
                assert(s.holds_seat(k, i, n));
            }
        }
        assert forall|k1: int, k2: int, i: int, n: u64| #[trigger]
            t.holds_seat(k1, i, n) && #[trigger] t.holds_seat(k2, i, n) implies k1 == k2 by {
            if k1 == knew && k2 != knew {
                s.lemma_train_index(train_id, i);
                assert(s.holds_seat(k2, i, n));
            } else if k2 == knew && k1 != knew {
                s.lemma_train_index(train_id, i);
                assert(s.holds_seat(k1, i, n));
            } else if k1 != knew && k2 != knew {
                assert(s.holds_seat(k1, i, n) && s.holds_seat(k2, i, n));
            }
        }
        assert forall|i: int, n: u64|
            0 <= i < t.trains.len() && #[trigger] seat_status(t.trains[i].seats, n) == Some(
                BookingStatus::Booked,
            ) implies exists|k: int| t.holds_seat(k, i, n) by {
            if i == i0 && n == seat_number {
                assert(t.holds_seat(knew, i, n));
            } else {
                assert(seat_status(s.trains[i].seats, n) == Some(BookingStatus::Booked));
                let k = choose|k: int| s.holds_seat(k, i, n);
                assert(t.holds_seat(k, i, n));
            }
        }
        assert(t.ids_ordered());
        assert(t.ids_disjoint());
        assert(t.routes_resolve());
    assert(t.trains_attached());
        assert(t.trains_attached());
        assert(t.bookings_consistent());
    }
}

/// `refund_ticket` keeps the state well formed.
pub proof fn lemma_refund_ticket_wf(s: SystemView, ticket_id: u64, now: u64)
    requires
        s.wf(),
    ensures
        s.refund_ticket(ticket_id, now).wf(),
{
    let t = s.refund_ticket(ticket_id, now);
    if s.refund_ticket_refusal(ticket_id, now) is None {
        let k0 = ticket_index(s.tickets, ticket_id);
        assert(ticket_at(s.tickets, ticket_id, k0));
        let tk = s.tickets[k0];
        let i0 = train_index(s.trains, tk.train_id);
        assert(train_at(s.trains, tk.train_id, i0));
        let n0 = tk.seat_number;
        assert(s.holds_seat(k0, i0, n0));
        assert forall|i: int| 0 <= i < t.trains.len() implies #[trigger] t.trains[i].id
            == s.trains[i].id by {}
        lemma_seat_change_attached(s, t);
        assert forall|i: int| 0 <= i < t.trains.len() implies has_station_named(
            t.stations,
            #[trigger] t.trains[i].departure_station,
        ) && has_station_named(t.stations, t.trains[i].arrival_station) by {
            assert(has_station_named(s.stations, s.trains[i].departure_station));
            lemma_names_kept(s.stations, t.stations, s.trains[i].departure_station);
            lemma_names_kept(s.stations, t.stations, s.trains[i].arrival_station);
        }
        assert forall|k: int| 0 <= k < t.tickets.len() implies #[trigger] t.tickets[k]
            == s.tickets[if k < k0 { k } else { k + 1 }] by {}
        assert forall|i: int, j: int| 0 <= i < j < t.tickets.len() implies #[trigger] t.tickets[i].id
            < #[trigger] t.tickets[j].id by {
            let ii = if i < k0 { i } else { i + 1 };
            let jj = if j < k0 { j } else { j + 1 };
            assert(s.tickets[ii].id < s.tickets[jj].id);
        }
        assert forall|i: int| 0 <= i < t.tickets.len() implies #[trigger] t.tickets[i].id
            < t.next_id && t.tickets[i].train_id < t.next_id by {
            let ii = if i < k0 { i } else { i + 1 };
            assert(s.tickets[ii].id < s.next_id);
        }
        assert forall|k: int, i: int, n: u64| #[trigger] t.holds_seat(k, i, n) implies seat_status(
            t.trains[i].seats,
            n,
        ) == Some(BookingStatus::Booked) by {
            let kk = if k < k0 { k } else { k + 1 };
            assert(s.holds_seat(kk, i, n));
            if i == i0 && n == n0 {
                assert(s.holds_seat(k0, i, n));
            }
        }
        assert forall|k1: int, k2: int, i: int, n: u64| #[trigger]
            t.holds_seat(k1, i, n) && #[trigger] t.holds_seat(k2, i, n) implies k1 == k2 by {
            let kk1 = if k1 < k0 { k1 } else { k1 + 1 };
            let kk2 = if k2 < k0 { k2 } else { k2 + 1 };
            assert(s.holds_seat(kk1, i, n) && s.holds_seat(kk2, i, n));
        }
        assert forall|i: int, n: u64|
            0 <= i < t.trains.len() && #[trigger] seat_status(t.trains[i].seats, n) == Some(
                BookingStatus::Booked,
            ) implies exists|k: int| t.holds_seat(k, i, n) by {
            assert(seat_status(s.trains[i].seats, n) == Some(BookingStatus::Booked));
            let ks = choose|k: int| s.holds_seat(k, i, n);
            assert(s.holds_seat(ks, i, n));
            if ks == k0 {
                s.lemma_train_index(tk.train_id, i);
            }
            let k = if ks < k0 { ks } else { ks - 1 };
            assert(t.holds_seat(k, i, n));
        }
        assert(t.ids_ordered());
        assert(t.ids_disjoint());
        assert(t.routes_resolve());
    assert(t.trains_attached());
        assert(t.trains_attached());
        assert(t.bookings_consistent());
    }
}

/// `close_train` keeps the state well formed.
pub proof fn lemma_close_train_wf(s: SystemView, admin_id: u64, train_id: u64)
    requires
        s.wf(),
    ensures
        s.close_train(admin_id, train_id).wf(),
{
    let t = s.close_train(admin_id, train_id);
    if s.close_train_refusal(admin_id, train_id) is None {
        lemma_close_train_attached(s, admin_id, train_id);
        let i0 = train_index(s.trains, train_id);
        assert(train_at(s.trains, train_id, i0));
        if has_station_named(s.stations, s.trains[i0].departure_station) {
            lemma_first_station_exists(s.stations, s.trains[i0].departure_station);
        }
        assert forall|i: int| 0 <= i < t.stations.len() implies #[trigger] t.stations[i].id
            == s.stations[i].id by {}
        assert forall|i: int| 0 <= i < t.trains.len() implies #[trigger] t.trains[i]
            == s.trains[if i < i0 { i } else { i + 1 }] by {}
        assert forall|i: int| 0 <= i < t.trains.len() implies has_station_named(
            t.stations,
            #[trigger] t.trains[i].departure_station,
        ) && has_station_named(t.stations, t.trains[i].arrival_station) by {
            let ii = if i < i0 { i } else { i + 1 };
            assert(has_station_named(s.stations, s.trains[ii].departure_station));
            lemma_names_kept(s.stations, t.stations, s.trains[ii].departure_station);
            lemma_names_kept(s.stations, t.stations, s.trains[ii].arrival_station);
        }
        assert forall|i: int, j: int| 0 <= i < j < t.trains.len() implies #[trigger] t.trains[i].id
            < #[trigger] t.trains[j].id by {
            let ii = if i < i0 { i } else { i + 1 };
            let jj = if j < i0 { j } else { j + 1 };
            assert(s.trains[ii].id < s.trains[jj].id);
        }
        assert forall|i: int| 0 <= i < t.trains.len() implies #[trigger] t.trains[i].id
            < t.next_id by {
            let ii = if i < i0 { i } else { i + 1 };
            assert(s.trains[ii].id < s.next_id);
        }
        assert forall|k: int, i: int, n: u64| #[trigger] t.holds_seat(k, i, n) implies seat_status(
            t.trains[i].seats,
            n,
        ) == Some(BookingStatus::Booked) by {
            let ii = if i < i0 { i } else { i + 1 };
            assert(s.holds_seat(k, ii, n));
        }
        assert forall|k1: int, k2: int, i: int, n: u64| #[trigger]
            t.holds_seat(k1, i, n) && #[trigger] t.holds_seat(k2, i, n) implies k1 == k2 by {
            let ii = if i < i0 { i } else { i + 1 };
            assert(s.holds_seat(k1, ii, n) && s.holds_seat(k2, ii, n));
        }
        assert forall|i: int, n: u64|
            0 <= i < t.trains.len() && #[trigger] seat_status(t.trains[i].seats, n) == Some(
                BookingStatus::Booked,
            ) implies exists|k: int| t.holds_seat(k, i, n) by {
            let ii = if i < i0 { i } else { i + 1 };
            assert(seat_status(s.trains[ii].seats, n) == Some(BookingStatus::Booked));
            let k = choose|k: int| s.holds_seat(k, ii, n);
            assert(t.holds_seat(k, i, n));
        }
        assert(t.ids_ordered());
        assert(t.ids_disjoint());
        assert(t.routes_resolve());
    assert(t.trains_attached());
        assert(t.trains_attached());
        assert(t.bookings_consistent());
    }
}

/// The numbers of the booked seats of a seat map.
pub open spec fn booked_seats(seats: Seq<BookingStatus>) -> Set<u64> {
    Set::new(|n: u64| seat_status(seats, n) == Some(BookingStatus::Booked))
}

/// The places, in the ticket table, of the tickets for train `train_id`.
pub open spec fn tickets_for(tickets: Seq<TicketView>, train_id: u64) -> Set<int> {
    Set::new(|k: int| 0 <= k < tickets.len() && tickets[k].train_id == train_id)
}

/// On every train in the table, as many seats are booked as there are tickets
/// for that train.
pub proof fn lemma_booked_seats_match_tickets(s: SystemView, i: int)
    requires
        s.wf(),
        0 <= i < s.trains.len(),
    ensures
        booked_seats(s.trains[i].seats).finite(),
        tickets_for(s.tickets, s.trains[i].id).finite(),
        booked_seats(s.trains[i].seats).len() == tickets_for(s.tickets, s.trains[i].id).len(),
{
    let x = tickets_for(s.tickets, s.trains[i].id);
    let y = booked_seats(s.trains[i].seats);
    let f = |k: int| s.tickets[k].seat_number;
    lemma_int_range(0, s.tickets.len() as int);
    assert(x.subset_of(set_int_range(0, s.tickets.len() as int)));
    lemma_len_subset(x, set_int_range(0, s.tickets.len() as int));
    assert forall|k1: int, k2: int|
        x.contains(k1) && x.contains(k2) && #[trigger] f(k1) == #[trigger] f(k2) implies k1
        == k2 by {
        assert(s.holds_seat(k1, i, f(k1)) && s.holds_seat(k2, i, f(k1)));
    }
    assert forall|n: u64| x.map(f).contains(n) == y.contains(n) by {
        if x.map(f).contains(n) {
            let k = choose|k: int| x.contains(k) && n == f(k);
            assert(s.holds_seat(k, i, n));
        }
        if y.contains(n) {
            let k = choose|k: int| s.holds_seat(k, i, n);
            assert(x.contains(k) && n == f(k));
        }
    }
    assert(x.map(f) =~= y);
    lemma_map_size(x, y, f);
}

/// A purchase that goes through finds the seat available and leaves it booked,
/// and a second purchase of that seat is refused as already booked, whoever asks
/// and whenever.
pub proof fn lemma_second_purchase_refused(
    s: SystemView,
    train_id: u64,
    owner: Seq<char>,
    seat_number: u64,
    now: u64,
)
    requires
        s.wf(),
        s.buy_ticket_refusal(train_id, seat_number) is None,
    ensures
        seat_status(s.trains[train_index(s.trains, train_id)].seats, seat_number) == Some(
            BookingStatus::Available,
        ),
        ({
            let t = s.buy_ticket(train_id, owner, seat_number, now);
            &&& has_train(t.trains, train_id)
            &&& seat_status(t.trains[train_index(t.trains, train_id)].seats, seat_number) == Some(
                BookingStatus::Booked,
            )
            &&& t.buy_ticket_refusal(train_id, seat_number) == Some(ErrorKind::AlreadyBooked)
        }),
{
    let t = s.buy_ticket(train_id, owner, seat_number, now);
    let i = train_index(s.trains, train_id);
    assert(train_at(s.trains, train_id, i));
    assert(train_at(t.trains, train_id, i));
    let j = train_index(t.trains, train_id);
    assert(train_at(t.trains, train_id, j));
    assert forall|a: int| 0 <= a < t.trains.len() implies #[trigger] t.trains[a].id
        == s.trains[a].id by {}
    s.lemma_train_index(train_id, j);
}

/// For a registered admin, `create_train` is refused as invalid input whenever
/// one of the two names is borne by no station, and it then changes nothing.
pub proof fn lemma_unknown_station_refused(
    s: SystemView,
    admin_id: u64,
    departure: Seq<char>,
    arrival: Seq<char>,
    seat_count: u64,
    price: u64,
    schedule: u64,
)
    requires
        s.is_admin(admin_id),
        !has_station_named(s.stations, departure) || !has_station_named(s.stations, arrival),
    ensures
        s.create_train_refusal(admin_id, departure, arrival) == Some(ErrorKind::InvalidInput),
        s.create_train(admin_id, departure, arrival, seat_count, price, schedule) == s,
{
}

/// Closing a train changes one station only: the first that bears the train's
/// departure name, whose list loses the train's id and nothing else. After it the
/// train cannot be viewed.
pub proof fn lemma_close_train_detaches(s: SystemView, admin_id: u64, train_id: u64)
    requires
        s.wf(),
        s.close_train_refusal(admin_id, train_id) is None,
    ensures
        ({
            let t = s.close_train(admin_id, train_id);
            let departure = s.trains[train_index(s.trains, train_id)].departure_station;
            let at = first_station_named(s.stations, departure);
            &&& is_first_station_named(s.stations, departure, at)
            &&& t.stations.len() == s.stations.len()
            &&& forall|j: int| 0 <= j < s.stations.len() && j != at ==> t.stations[j] == s.stations[j]
            &&& t.stations[at] == without_train_id(s.stations[at], train_id)
            &&& s.stations[at].train_ids.contains(train_id)
            &&& forall|j: int|
                0 <= j < s.stations.len() && j != at ==> !(#[trigger] s.stations[j]).train_ids.contains(
                    train_id,
                )
            &&& forall|j: int|
                0 <= j < t.stations.len() ==> !(#[trigger] t.stations[j]).train_ids.contains(train_id)
            &&& forall|x: u64|
                x != train_id ==> (t.stations[at].train_ids.contains(x)
                    <==> s.stations[at].train_ids.contains(x))
            &&& !has_train(t.trains, train_id)
            &&& t.view_train(train_id) == Err::<TrainView, ErrorKind>(ErrorKind::NotFound)
        }),
{
    let t = s.close_train(admin_id, train_id);
    let i0 = train_index(s.trains, train_id);
    assert(train_at(s.trains, train_id, i0));
    let departure = s.trains[i0].departure_station;
    assert(has_station_named(s.stations, departure));
    lemma_first_station_exists(s.stations, departure);
    let at = first_station_named(s.stations, departure);
    assert forall|x: u64|
        t.stations[at].train_ids.contains(x) <==> (s.stations[at].train_ids.contains(x) && x
            != train_id) by {
        lemma_without_contains(s.stations[at].train_ids, train_id, x);
    }
    assert(s.attached(at, train_id));
    assert(s.stations[at].train_ids.contains(train_id) <==> s.attached(at, train_id));
    assert forall|j: int| 0 <= j < s.stations.len() && j != at implies !(
    #[trigger] s.stations[j]).train_ids.contains(train_id) by {
        assert(s.stations[j].train_ids.contains(train_id) <==> s.attached(j, train_id));
        if s.attached(j, train_id) {
            let i = choose|i: int| #[trigger]
                train_at(s.trains, train_id, i) && is_first_station_named(
                    s.stations,
                    s.trains[i].departure_station,
                    j,
                );
            s.lemma_train_index(train_id, i);
            lemma_first_station_named(s.stations, departure, j);
        }
    }
    if has_train(t.trains, train_id) {
        let j = choose|j: int| train_at(t.trains, train_id, j);
        let jj = if j < i0 { j } else { j + 1 };
        assert(t.trains[j] == s.trains[jj]);
        s.lemma_train_index(train_id, jj);
    }
}

/// The identifier that the next allocation hands out stands in no table, and no
/// ticket refers to it.
pub proof fn lemma_next_id_is_fresh(s: SystemView)
    requires
        s.wf(),
    ensures
        !has_station(s.stations, s.next_id),
        !has_train(s.trains, s.next_id),
        !has_ticket(s.tickets, s.next_id),
        forall|k: int| 0 <= k < s.tickets.len() ==> (#[trigger] s.tickets[k]).train_id != s.next_id,
{
    if has_station(s.stations, s.next_id) {
        let i = choose|i: int| station_at(s.stations, s.next_id, i);
        assert(s.stations[i].id < s.next_id);
    }
    if has_train(s.trains, s.next_id) {
        let i = choose|i: int| train_at(s.trains, s.next_id, i);
        assert(s.trains[i].id < s.next_id);
    }
    if has_ticket(s.tickets, s.next_id) {
        let i = choose|i: int| ticket_at(s.tickets, s.next_id, i);
        assert(s.tickets[i].id < s.next_id);
    }
    assert forall|k: int| 0 <= k < s.tickets.len() implies (#[trigger] s.tickets[k]).train_id
        != s.next_id by {
        assert(s.tickets[k].id < s.next_id);
    }
}

/// An id stands in at most one of the three tables that draw on the counter.
pub proof fn lemma_tables_share_no_id(s: SystemView, id: u64)
    requires
        s.wf(),
    ensures
        !(has_station(s.stations, id) && has_train(s.trains, id)),
        !(has_station(s.stations, id) && has_ticket(s.tickets, id)),
        !(has_train(s.trains, id) && has_ticket(s.tickets, id)),
{
    if has_station(s.stations, id) {
        let i = choose|i: int| station_at(s.stations, id, i);
        if has_train(s.trains, id) {
            let j = choose|j: int| train_at(s.trains, id, j);
            assert(s.stations[i].id != s.trains[j].id);
        }
        if has_ticket(s.tickets, id) {
            let k = choose|k: int| ticket_at(s.tickets, id, k);
            assert(s.stations[i].id != s.tickets[k].id);
        }
    }
    if has_train(s.trains, id) && has_ticket(s.tickets, id) {
        let j = choose|j: int| train_at(s.trains, id, j);
        let k = choose|k: int| ticket_at(s.tickets, id, k);
        assert(s.trains[j].id != s.tickets[k].id);
    }
}

/// The counter never goes back: each operation that stores a new record gives it
/// the counter's value and advances the counter by one, and every other outcome
/// leaves the counter where it was.
pub proof fn lemma_counter_advances(
    s: SystemView,
    admin_id: u64,
    name: Seq<char>,
    other_name: Seq<char>,
    funds: u64,
    seat_count: u64,
    price: u64,
    schedule: u64,
    id: u64,
    seat_number: u64,
    now: u64,
)
    requires
        s.next_id < u64::MAX,
    ensures
        s.init_system(admin_id, name, funds).next_id == s.next_id + 1,
        s.init_system(admin_id, name, funds).stations.last().id == s.next_id,
        s.create_train(admin_id, name, other_name, seat_count, price, schedule).next_id == (
        if s.create_train_refusal(admin_id, name, other_name) is None {
            s.next_id + 1
        } else {
            s.next_id as int
        }),
        s.new_train(name, other_name, seat_count, price, schedule).id == s.next_id,
        s.buy_ticket(id, name, seat_number, now).next_id == (if s.buy_ticket_refusal(
            id,
            seat_number,
        ) is None {
            s.next_id + 1
        } else {
            s.next_id as int
        }),
        s.new_ticket(id, name, seat_number, now).id == s.next_id,
        s.refund_ticket(id, now).next_id == s.next_id,
        s.close_train(admin_id, id).next_id == s.next_id,
{
}

} // verus!
