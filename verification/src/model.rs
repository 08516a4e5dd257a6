//! The mathematical model of the record store and of each operation on it.
//!
//! The admin table is the set of registered admin ids. Each other table is a
//! sequence of records in ascending order of id, which is the order in which the
//! table is walked. Each operation is given as a pair of spec functions: the
//! refusal, if any, and the state that follows.

use vstd::prelude::*;
use crate::types::{BookingStatus, ErrorKind, StationView, TicketView, TrainView, fresh_seats, seat_status};

verus! {

/// The four tables and the identifier counter.
#[verifier::ext_equal]
pub struct SystemView {
    pub admins: Set<u64>,
    pub stations: Seq<StationView>,
    pub trains: Seq<TrainView>,
    pub tickets: Seq<TicketView>,
    pub next_id: u64,
}

pub open spec fn station_named_at(stations: Seq<StationView>, name: Seq<char>, i: int) -> bool {
    0 <= i < stations.len() && stations[i].name == name
}

pub open spec fn has_station_named(stations: Seq<StationView>, name: Seq<char>) -> bool {
    exists|i: int| station_named_at(stations, name, i)
}

/// `i` is the place of the first station, in table order, that bears `name`.
pub open spec fn is_first_station_named(stations: Seq<StationView>, name: Seq<char>, i: int) -> bool {
    &&& station_named_at(stations, name, i)
    &&& forall|j: int| 0 <= j < i ==> !station_named_at(stations, name, j)
}

pub open spec fn first_station_named(stations: Seq<StationView>, name: Seq<char>) -> int {
    choose|i: int| is_first_station_named(stations, name, i)
}

pub open spec fn station_at(stations: Seq<StationView>, id: u64, i: int) -> bool {
    0 <= i < stations.len() && stations[i].id == id
}

pub open spec fn has_station(stations: Seq<StationView>, id: u64) -> bool {
    exists|i: int| station_at(stations, id, i)
}

pub open spec fn station_index(stations: Seq<StationView>, id: u64) -> int {
    choose|i: int| station_at(stations, id, i)
}

pub open spec fn train_at(trains: Seq<TrainView>, id: u64, i: int) -> bool {
    0 <= i < trains.len() && trains[i].id == id
}

pub open spec fn has_train(trains: Seq<TrainView>, id: u64) -> bool {
    exists|i: int| train_at(trains, id, i)
}

pub open spec fn train_index(trains: Seq<TrainView>, id: u64) -> int {
    choose|i: int| train_at(trains, id, i)
}

pub open spec fn ticket_at(tickets: Seq<TicketView>, id: u64, i: int) -> bool {
    0 <= i < tickets.len() && tickets[i].id == id
}

pub open spec fn has_ticket(tickets: Seq<TicketView>, id: u64) -> bool {
    exists|i: int| ticket_at(tickets, id, i)
}

pub open spec fn ticket_index(tickets: Seq<TicketView>, id: u64) -> int {
    choose|i: int| ticket_at(tickets, id, i)
}

/// `ids` with every occurrence of `id` taken out, the rest in their order.
pub open spec fn without(ids: Seq<u64>, id: u64) -> Seq<u64>
    decreases ids.len(),
{
    if ids.len() == 0 {
        Seq::empty()
    } else if ids.last() == id {
        without(ids.drop_last(), id)
    } else {
        without(ids.drop_last(), id).push(ids.last())
    }
}

pub open spec fn with_train_id(s: StationView, id: u64) -> StationView {
    StationView { id: s.id, name: s.name, funds: s.funds, train_ids: s.train_ids.push(id) }
}

pub open spec fn without_train_id(s: StationView, id: u64) -> StationView {
    StationView { id: s.id, name: s.name, funds: s.funds, train_ids: without(s.train_ids, id) }
}

pub open spec fn with_seat(t: TrainView, n: u64, status: BookingStatus) -> TrainView {
    TrainView {
        id: t.id,
        departure_station: t.departure_station,
        arrival_station: t.arrival_station,
        seats: t.seats.update(n - 1, status),
        price: t.price,
        schedule: t.schedule,
    }
}

impl SystemView {
    /// The state before anything has happened: empty tables, and 1 as the first id.
    pub open spec fn initial() -> SystemView {
        SystemView {
            admins: Set::empty(),
            stations: Seq::empty(),
            trains: Seq::empty(),
            tickets: Seq::empty(),
            next_id: 1,
        }
    }

    pub open spec fn is_admin(self, admin_id: u64) -> bool {
        self.admins.contains(admin_id)
    }

    /// Each table is in strictly ascending order of id, and every id that was handed
    /// out, or that a ticket refers to, lies below the counter.
    pub open spec fn ids_ordered(self) -> bool {
        &&& forall|i: int, j: int|
            0 <= i < j < self.stations.len() ==> #[trigger] self.stations[i].id
                < #[trigger] self.stations[j].id
        &&& forall|i: int|
            0 <= i < self.stations.len() ==> #[trigger] self.stations[i].id < self.next_id
        &&& forall|i: int, j: int|
            0 <= i < j < self.trains.len() ==> #[trigger] self.trains[i].id
                < #[trigger] self.trains[j].id
        &&& forall|i: int| 0 <= i < self.trains.len() ==> #[trigger] self.trains[i].id < self.next_id
        &&& forall|i: int, j: int|
            0 <= i < j < self.tickets.len() ==> #[trigger] self.tickets[i].id
                < #[trigger] self.tickets[j].id
        &&& forall|i: int|
            0 <= i < self.tickets.len() ==> {
                &&& #[trigger] self.tickets[i].id < self.next_id
                &&& self.tickets[i].train_id < self.next_id
            }
    }

    /// Ticket `k` is for seat `n` of train `i`.
    pub open spec fn holds_seat(self, k: int, i: int, n: u64) -> bool {
        &&& 0 <= k < self.tickets.len()
        &&& 0 <= i < self.trains.len()
        &&& self.tickets[k].train_id == self.trains[i].id
        &&& self.tickets[k].seat_number == n
    }

    /// On every train that has not been closed, the booked seats and the tickets for
    /// that train correspond one to one.
    pub open spec fn bookings_consistent(self) -> bool {
        &&& forall|k: int, i: int, n: u64| #[trigger]
            self.holds_seat(k, i, n) ==> seat_status(self.trains[i].seats, n) == Some(
                BookingStatus::Booked,
            )
        &&& forall|k1: int, k2: int, i: int, n: u64|
            #[trigger] self.holds_seat(k1, i, n) && #[trigger] self.holds_seat(k2, i, n) ==> k1
                == k2
        &&& forall|i: int, n: u64|
            0 <= i < self.trains.len() && #[trigger] seat_status(self.trains[i].seats, n) == Some(
                BookingStatus::Booked,
            ) ==> exists|k: int| self.holds_seat(k, i, n)
    }

    /// No id stands in two of the tables that draw on the counter.
    pub open spec fn ids_disjoint(self) -> bool {
        &&& forall|i: int, j: int|
            0 <= i < self.stations.len() && 0 <= j < self.trains.len()
                ==> #[trigger] self.stations[i].id != #[trigger] self.trains[j].id
        &&& forall|i: int, k: int|
            0 <= i < self.stations.len() && 0 <= k < self.tickets.len()
                ==> #[trigger] self.stations[i].id != #[trigger] self.tickets[k].id
        &&& forall|j: int, k: int|
            0 <= j < self.trains.len() && 0 <= k < self.tickets.len()
                ==> #[trigger] self.trains[j].id != #[trigger] self.tickets[k].id
    }

    /// Both station names of every train are borne by a station.
    pub open spec fn routes_resolve(self) -> bool {
        forall|i: int|
            0 <= i < self.trains.len() ==> {
                &&& has_station_named(self.stations, #[trigger] self.trains[i].departure_station)
                &&& has_station_named(self.stations, self.trains[i].arrival_station)
            }
    }

    /// Train `x` is in the table and station `j` is the first to bear its departure name.
    pub open spec fn attached(self, j: int, x: u64) -> bool {
        exists|i: int| #[trigger]
            train_at(self.trains, x, i) && is_first_station_named(
                self.stations,
                self.trains[i].departure_station,
                j,
            )
    }

    /// A station lists exactly the trains in the table that depart from it, where a
    /// name that several stations bear counts for the first of them.
    pub open spec fn trains_attached(self) -> bool {
        forall|j: int, x: u64|
            0 <= j < self.stations.len() ==> (#[trigger] self.stations[j].train_ids.contains(x)
                <==> self.attached(j, x))
    }

    /// What holds of every state that the operations reach from the initial one.
    pub open spec fn wf(self) -> bool {
        &&& self.ids_ordered()
        &&& self.ids_disjoint()
        &&& self.routes_resolve()
        &&& self.trains_attached()
        &&& self.bookings_consistent()
    }

    /// The state after `init_system`, which is never refused.
    pub open spec fn init_system(self, admin_id: u64, name: Seq<char>, funds: u64) -> SystemView {
        SystemView {
            admins: self.admins.insert(admin_id),
            stations: self.stations.push(
                StationView { id: self.next_id, name, funds, train_ids: Seq::empty() },
            ),
            trains: self.trains,
            tickets: self.tickets,
            next_id: (self.next_id + 1) as u64,
        }
    }

    /// Why `create_train` is refused, or `None` where it goes through.
    pub open spec fn create_train_refusal(
        self,
        admin_id: u64,
        departure: Seq<char>,
        arrival: Seq<char>,
    ) -> Option<ErrorKind> {
        if !self.is_admin(admin_id) {
            Some(ErrorKind::UnAuthorized)
        } else if !has_station_named(self.stations, departure) || !has_station_named(
            self.stations,
            arrival,
        ) {
            Some(ErrorKind::InvalidInput)
        } else {
            None
        }
    }

    /// The train that `create_train` makes: the next id, and every seat available.
    pub open spec fn new_train(
        self,
        departure: Seq<char>,
        arrival: Seq<char>,
        seat_count: u64,
        price: u64,
        schedule: u64,
    ) -> TrainView {
        TrainView {
            id: self.next_id,
            departure_station: departure,
            arrival_station: arrival,
            seats: fresh_seats(seat_count),
            price,
            schedule,
        }
    }

    /// The state after `create_train`: unchanged where it is refused; else the new
    /// train is stored and its id joins the first station that bears the departure name.
    pub open spec fn create_train(
        self,
        admin_id: u64,
        departure: Seq<char>,
        arrival: Seq<char>,
        seat_count: u64,
        price: u64,
        schedule: u64,
    ) -> SystemView {
        if self.create_train_refusal(admin_id, departure, arrival) is Some {
            self
        } else {
            let i = first_station_named(self.stations, departure);
            SystemView {
                admins: self.admins,
                stations: self.stations.update(i, with_train_id(self.stations[i], self.next_id)),
                trains: self.trains.push(
                    self.new_train(departure, arrival, seat_count, price, schedule),
                ),
                tickets: self.tickets,
                next_id: (self.next_id + 1) as u64,
            }
        }
    }

    /// Why `buy_ticket` is refused, or `None` where it goes through. A seat number
    /// that the train does not have counts as not available.
    pub open spec fn buy_ticket_refusal(self, train_id: u64, seat_number: u64) -> Option<
        ErrorKind,
    > {
        if !has_train(self.trains, train_id) {
            Some(ErrorKind::NotFound)
        } else if seat_status(self.trains[train_index(self.trains, train_id)].seats, seat_number)
            != Some(BookingStatus::Available) {
            Some(ErrorKind::AlreadyBooked)
        } else {
            None
        }
    }

    /// The ticket that `buy_ticket` issues at time `now`.
    pub open spec fn new_ticket(self, train_id: u64, owner: Seq<char>, seat_number: u64, now: u64)
        -> TicketView {
        TicketView { id: self.next_id, train_id, owner, seat_number, launch_time: now }
    }

    /// The state after `buy_ticket`.
    pub open spec fn buy_ticket(self, train_id: u64, owner: Seq<char>, seat_number: u64, now: u64)
        -> SystemView {
        if self.buy_ticket_refusal(train_id, seat_number) is Some {
            self
        } else {
            let i = train_index(self.trains, train_id);
            SystemView {
                admins: self.admins,
                stations: self.stations,
                trains: self.trains.update(
                    i,
                    with_seat(self.trains[i], seat_number, BookingStatus::Booked),
                ),
                tickets: self.tickets.push(self.new_ticket(train_id, owner, seat_number, now)),
                next_id: (self.next_id + 1) as u64,
            }
        }
    }

    /// Why `refund_ticket` is refused at time `now`, or `None` where it goes through.
    /// A ticket whose train has been closed is refused as not found.
    pub open spec fn refund_ticket_refusal(self, ticket_id: u64, now: u64) -> Option<ErrorKind> {
        if !has_ticket(self.tickets, ticket_id) {
            Some(ErrorKind::NotFound)
        } else {
            let t = self.tickets[ticket_index(self.tickets, ticket_id)];
            if t.launch_time <= now {
                Some(ErrorKind::TrainDeparted)
            } else if !has_train(self.trains, t.train_id) {
                Some(ErrorKind::NotFound)
            } else {
                None
            }
        }
    }

    /// The state after `refund_ticket`.
    pub open spec fn refund_ticket(self, ticket_id: u64, now: u64) -> SystemView {
        if self.refund_ticket_refusal(ticket_id, now) is Some {
            self
        } else {
            let k = ticket_index(self.tickets, ticket_id);
            let t = self.tickets[k];
            let i = train_index(self.trains, t.train_id);
            SystemView {
                admins: self.admins,
                stations: self.stations,
                trains: self.trains.update(
                    i,
                    with_seat(self.trains[i], t.seat_number, BookingStatus::Available),
                ),
                tickets: self.tickets.remove(k),
                next_id: self.next_id,
            }
        }
    }

    /// Why `close_train` is refused, or `None` where it goes through.
    pub open spec fn close_train_refusal(self, admin_id: u64, train_id: u64) -> Option<ErrorKind> {
        if !self.is_admin(admin_id) {
            Some(ErrorKind::UnAuthorized)
        } else if !has_train(self.trains, train_id) {
            Some(ErrorKind::NotFound)
        } else {
            None
        }
    }

    /// The stations after train `train_id`, which departs from `departure`, is closed:
    /// the id leaves the first station that bears that name, and no other changes.
    pub open spec fn detach_train(stations: Seq<StationView>, departure: Seq<char>, train_id: u64)
        -> Seq<StationView> {
        if has_station_named(stations, departure) {
            let i = first_station_named(stations, departure);
            stations.update(i, without_train_id(stations[i], train_id))
        } else {
            stations
        }
    }

    /// The state after `close_train`. Tickets for the train stay.
    pub open spec fn close_train(self, admin_id: u64, train_id: u64) -> SystemView {
        if self.close_train_refusal(admin_id, train_id) is Some {
            self
        } else {
            let i = train_index(self.trains, train_id);
            SystemView {
                admins: self.admins,
                stations: Self::detach_train(
                    self.stations,
                    self.trains[i].departure_station,
                    train_id,
                ),
                trains: self.trains.remove(i),
                tickets: self.tickets,
                next_id: self.next_id,
            }
        }
    }

    /// What `view_train` returns.
    pub open spec fn view_train(self, train_id: u64) -> Result<TrainView, ErrorKind> {
        if has_train(self.trains, train_id) {
            Ok(self.trains[train_index(self.trains, train_id)])
        } else {
            Err(ErrorKind::NotFound)
        }
    }

    /// What `view_station` returns.
    pub open spec fn view_station(self, station_id: u64) -> Result<StationView, ErrorKind> {
        if has_station(self.stations, station_id) {
            Ok(self.stations[station_index(self.stations, station_id)])
        } else {
            Err(ErrorKind::NotFound)
        }
    }
}

/// The first station that bears a name is the one that `first_station_named` picks.
pub proof fn lemma_first_station_named(stations: Seq<StationView>, name: Seq<char>, i: int)
    requires
        is_first_station_named(stations, name, i),
    ensures
        has_station_named(stations, name),
        first_station_named(stations, name) == i,
{
    let c = first_station_named(stations, name);
    assert(is_first_station_named(stations, name, c));
    assert(station_named_at(stations, name, i));
    if c < i {
        assert(!station_named_at(stations, name, c));
    }
    if i < c {
        assert(!station_named_at(stations, name, i));
    }
}

/// A name that some station bears has a first station that bears it.
pub proof fn lemma_first_station_exists(stations: Seq<StationView>, name: Seq<char>)
    requires
        has_station_named(stations, name),
    ensures
        is_first_station_named(stations, name, first_station_named(stations, name)),
{
    let w = choose|i: int| station_named_at(stations, name, i);
    lemma_first_station_below(stations, name, w);
}

proof fn lemma_first_station_below(stations: Seq<StationView>, name: Seq<char>, w: int)
    requires
        station_named_at(stations, name, w),
    ensures
        exists|i: int| is_first_station_named(stations, name, i),
    decreases w,
{
    if exists|j: int| 0 <= j < w && station_named_at(stations, name, j) {
        let j = choose|j: int| 0 <= j < w && station_named_at(stations, name, j);
        lemma_first_station_below(stations, name, j);
    } else {
        assert(is_first_station_named(stations, name, w));
    }
}

/// A name that a station bears is still borne after stations were added and
/// changed, as long as each kept its name.
pub proof fn lemma_names_kept(before: Seq<StationView>, after: Seq<StationView>, name: Seq<char>)
    requires
        before.len() <= after.len(),
        forall|i: int| 0 <= i < before.len() ==> #[trigger] after[i].name == before[i].name,
        has_station_named(before, name),
    ensures
        has_station_named(after, name),
{
    let i = choose|i: int| station_named_at(before, name, i);
    assert(after[i].name == before[i].name);
    assert(station_named_at(after, name, i));
}

/// Whether a station is the first to bear a name does not change when stations are
/// added behind it and each station keeps its name.
pub proof fn lemma_first_station_same(
    before: Seq<StationView>,
    after: Seq<StationView>,
    name: Seq<char>,
    j: int,
)
    requires
        before.len() <= after.len(),
        forall|i: int| 0 <= i < before.len() ==> #[trigger] after[i].name == before[i].name,
        0 <= j < before.len(),
    ensures
        is_first_station_named(after, name, j) == is_first_station_named(before, name, j),
{
    assert(after[j].name == before[j].name);
    if is_first_station_named(before, name, j) {
        assert forall|a: int| 0 <= a < j implies !station_named_at(after, name, a) by {
            assert(after[a].name == before[a].name);
            assert(!station_named_at(before, name, a));
        }
    }
    if is_first_station_named(after, name, j) {
        assert forall|a: int| 0 <= a < j implies !station_named_at(before, name, a) by {
            assert(after[a].name == before[a].name);
            assert(!station_named_at(after, name, a));
        }
    }
}

/// What a list of ids holds after one more was appended.
pub proof fn lemma_push_contains(ids: Seq<u64>, id: u64, x: u64)
    ensures
        ids.push(id).contains(x) <==> (ids.contains(x) || x == id),
{
    let p = ids.push(id);
    if ids.contains(x) {
        let a = choose|a: int| 0 <= a < ids.len() && ids[a] == x;
        assert(p[a] == x);
    }
    if x == id {
        assert(p[ids.len() as int] == x);
    }
    if p.contains(x) {
        let a = choose|a: int| 0 <= a < p.len() && p[a] == x;
        if a < ids.len() {
            assert(ids[a] == x);
        }
    }
}

/// `without(ids, id)` holds exactly the members of `ids` other than `id`.
pub proof fn lemma_without_contains(ids: Seq<u64>, id: u64, x: u64)
    ensures
        without(ids, id).contains(x) <==> (ids.contains(x) && x != id),
    decreases ids.len(),
{
    if ids.len() > 0 {
        let rest = ids.drop_last();
        lemma_without_contains(rest, id, x);
        if ids.contains(x) {
            let a = choose|a: int| 0 <= a < ids.len() && ids[a] == x;
            if a < ids.len() - 1 {
                assert(rest[a] == x);
            }
        }
        if rest.contains(x) {
            let a = choose|a: int| 0 <= a < rest.len() && rest[a] == x;
            assert(ids[a] == x);
        }
        if ids.last() != id {
            lemma_push_contains(without(rest, id), ids.last(), x);
            if x == ids.last() {
                assert(ids[ids.len() - 1] == x);
            }
        }
    }
}

impl SystemView {
    /// In an ordered table of stations an id stands at one place only.
    pub proof fn lemma_station_index(self, id: u64, i: int)
        requires
            self.ids_ordered(),
            station_at(self.stations, id, i),
        ensures
            has_station(self.stations, id),
            station_index(self.stations, id) == i,
    {
        let c = station_index(self.stations, id);
        assert(station_at(self.stations, id, c));
        if c < i {
            assert(self.stations[c].id < self.stations[i].id);
        }
        if i < c {
            assert(self.stations[i].id < self.stations[c].id);
        }
    }

    /// In an ordered table of trains an id stands at one place only.
    pub proof fn lemma_train_index(self, id: u64, i: int)
        requires
            self.ids_ordered(),
            train_at(self.trains, id, i),
        ensures
            has_train(self.trains, id),
            train_index(self.trains, id) == i,
    {
        let c = train_index(self.trains, id);
        assert(train_at(self.trains, id, c));
        if c < i {
            assert(self.trains[c].id < self.trains[i].id);
        }
        if i < c {
            assert(self.trains[i].id < self.trains[c].id);
        }
    }

    /// In an ordered table of tickets an id stands at one place only.
    pub proof fn lemma_ticket_index(self, id: u64, i: int)
        requires
            self.ids_ordered(),
            ticket_at(self.tickets, id, i),
        ensures
            has_ticket(self.tickets, id),
            ticket_index(self.tickets, id) == i,
    {
        let c = ticket_index(self.tickets, id);
        assert(ticket_at(self.tickets, id, c));
        if c < i {
            assert(self.tickets[c].id < self.tickets[i].id);
        }
        if i < c {
            assert(self.tickets[i].id < self.tickets[c].id);
        }
    }
}

} // verus!
