//! The record store and the operations of the booking engine.

use vstd::prelude::*;
use crate::types::{
    AdminCap, BookingStatus, Error, ErrorKind, Station, StationView, Ticket, Train, TrainView,
    fresh_seats, seat_status,
};
use crate::model::{
    SystemView, first_station_named, has_station, has_station_named, has_ticket, has_train,
    is_first_station_named, lemma_first_station_named, station_at, station_named_at, ticket_at,
    train_at, with_seat, without,
};
use crate::messages::{
    close_confirmation, init_confirmation, is_close_message, is_init_message, is_refund_message,
    refund_confirmation,
};
use crate::laws::{
    lemma_buy_ticket_wf, lemma_close_train_wf, lemma_create_train_wf, lemma_init_system_wf,
    lemma_refund_ticket_wf,
};

verus! {

/// The state that the given tables and counter stand for.
pub open spec fn state_of(
    next_id: u64,
    admins: Seq<AdminCap>,
    stations: Seq<Station>,
    trains: Seq<Train>,
    tickets: Seq<Ticket>,
) -> SystemView {
    SystemView {
        admins: Set::new(|a: u64| exists|i: int| 0 <= i < admins.len() && admins[i].admin_id == a),
        stations: Seq::new(stations.len(), |i: int| stations[i]@),
        trains: Seq::new(trains.len(), |i: int| trains[i]@),
        tickets: Seq::new(tickets.len(), |i: int| tickets[i]@),
        next_id,
    }
}

/// The record store: the admin table, the station, train and ticket tables, each of
/// these three held in ascending order of id, and the identifier counter.
pub struct RailSystem {
    admins: Vec<AdminCap>,
    stations: Vec<Station>,
    trains: Vec<Train>,
    tickets: Vec<Ticket>,
    next_id: u64,
}

impl View for RailSystem {
    type V = SystemView;

    closed spec fn view(&self) -> SystemView {
        state_of(self.next_id, self.admins@, self.stations@, self.trains@, self.tickets@)
    }
}

/// A copy of `ids` with every occurrence of `id` taken out.
fn remove_id(ids: &Vec<u64>, id: u64) -> (out: Vec<u64>)
    ensures
        out@ == without(ids@, id),
{
    let mut out: Vec<u64> = Vec::new();
    let mut i: usize = 0;
    while i < ids.len()
        invariant
            i <= ids.len(),
            out@ == without(ids@.take(i as int), id),
        decreases ids.len() - i,
    {
        assert(ids@.take(i + 1).drop_last() =~= ids@.take(i as int));
        if ids[i] != id {
            out.push(ids[i]);
        }
        i += 1;
    }
    assert(ids@.take(i as int) =~= ids@);
    out
}

/// A seat map of `count` seats, all of them available.
fn make_seats(count: u64) -> (seats: Vec<BookingStatus>)
    ensures
        seats@ == fresh_seats(count),
{
    let mut seats: Vec<BookingStatus> = Vec::new();
    let mut n: u64 = 0;
    while n < count
        invariant
            n <= count,
            seats@ =~= fresh_seats(n),
        decreases count - n,
    {
        seats.push(BookingStatus::Available);
        n += 1;
    }
    seats
}

impl RailSystem {
    /// An empty system, whose first identifier will be 1.
    pub fn new() -> (s: RailSystem)
        ensures
            s@ == SystemView::initial(),
            s@.wf(),
    {
        let s = RailSystem {
            admins: Vec::new(),
            stations: Vec::new(),
            trains: Vec::new(),
            tickets: Vec::new(),
            next_id: 1,
        };
        assert(s@ =~~= SystemView::initial());
        s
    }

    /// The identifier that the next allocation hands out.
    pub fn next_id(&self) -> (id: u64)
        ensures
            id == self@.next_id,
    {
        self.next_id
    }

    /// Hands out the current value of the counter and advances it by one.
    fn allocate_id(&mut self) -> (id: u64)
        requires
            old(self).next_id < u64::MAX,
        ensures
            id == old(self).next_id,
            final(self).next_id == id + 1,
            final(self).admins == old(self).admins,
            final(self).stations == old(self).stations,
            final(self).trains == old(self).trains,
            final(self).tickets == old(self).tickets,
    {
        let id = self.next_id;
        self.next_id = id + 1;
        id
    }

    /// The admin table.
    pub fn admins(&self) -> (r: &Vec<AdminCap>)
        ensures
            forall|a: u64|
                self@.is_admin(a) <==> exists|i: int| 0 <= i < r@.len() && r@[i].admin_id == a,
    {
        &self.admins
    }

    /// The station table, in ascending order of id.
    pub fn stations(&self) -> (r: &Vec<Station>)
        ensures
            r@.len() == self@.stations.len(),
            forall|i: int| 0 <= i < r@.len() ==> (#[trigger] r@[i])@ == self@.stations[i],
    {
        &self.stations
    }

    /// The train table, in ascending order of id.
    pub fn trains(&self) -> (r: &Vec<Train>)
        ensures
            r@.len() == self@.trains.len(),
            forall|i: int| 0 <= i < r@.len() ==> (#[trigger] r@[i])@ == self@.trains[i],
    {
        &self.trains
    }

    /// The ticket table, in ascending order of id.
    pub fn tickets(&self) -> (r: &Vec<Ticket>)
        ensures
            r@.len() == self@.tickets.len(),
            forall|i: int| 0 <= i < r@.len() ==> (#[trigger] r@[i])@ == self@.tickets[i],
    {
        &self.tickets
    }

    /// Whether `admin_id` is registered.
    pub fn is_admin(&self, admin_id: u64) -> (r: bool)
        ensures
            r == self@.is_admin(admin_id),
    {
        let mut i: usize = 0;
        while i < self.admins.len()
            invariant
                i <= self.admins@.len(),
                forall|j: int| 0 <= j < i ==> self.admins@[j].admin_id != admin_id,
            decreases self.admins.len() - i,
        {
            if self.admins[i].admin_id == admin_id {
                return true;
            }
            i += 1;
        }
        false
    }

    /// Succeeds exactly where `admin_id` is registered.
    pub fn require_admin(&self, admin_id: u64) -> (res: Result<(), Error>)
        ensures
            res is Ok <==> self@.is_admin(admin_id),
            res matches Err(e) ==> e.kind_of() == ErrorKind::UnAuthorized && e.text()
                == "Unauthorized access"@,
    {
        if self.is_admin(admin_id) {
            Ok(())
        } else {
            Err(Error::refusal(ErrorKind::UnAuthorized, "Unauthorized access"))
        }
    }

    fn find_station_named(&self, name: &String) -> (r: Option<usize>)
        ensures
            match r {
                Some(i) => is_first_station_named(self@.stations, name@, i as int),
                None => !has_station_named(self@.stations, name@),
            },
    {
        let mut i: usize = 0;
        while i < self.stations.len()
            invariant
                i <= self.stations@.len(),
                forall|j: int| 0 <= j < i ==> !station_named_at(self@.stations, name@, j),
            decreases self.stations.len() - i,
        {
            if self.stations[i].name == *name {
                return Some(i);
            }
            i += 1;
        }
        None
    }

    fn find_station(&self, id: u64) -> (r: Option<usize>)
        ensures
            match r {
                Some(i) => station_at(self@.stations, id, i as int),
                None => !has_station(self@.stations, id),
            },
    {
        let mut i: usize = 0;
        while i < self.stations.len()
            invariant
                i <= self.stations@.len(),
                forall|j: int| 0 <= j < i ==> !station_at(self@.stations, id, j),
            decreases self.stations.len() - i,
        {
            if self.stations[i].id == id {
                return Some(i);
            }
            i += 1;
        }
        None
    }

    fn find_train(&self, id: u64) -> (r: Option<usize>)
        ensures
            match r {
                Some(i) => train_at(self@.trains, id, i as int),
                None => !has_train(self@.trains, id),
            },
    {
        let mut i: usize = 0;
        while i < self.trains.len()
            invariant
                i <= self.trains@.len(),
                forall|j: int| 0 <= j < i ==> !train_at(self@.trains, id, j),
            decreases self.trains.len() - i,
        {
            if self.trains[i].id == id {
                return Some(i);
            }
            i += 1;
        }
        None
    }

    fn find_ticket(&self, id: u64) -> (r: Option<usize>)
        ensures
            match r {
                Some(i) => ticket_at(self@.tickets, id, i as int),
                None => !has_ticket(self@.tickets, id),
            },
    {
        let mut i: usize = 0;
        while i < self.tickets.len()
            invariant
                i <= self.tickets@.len(),
                forall|j: int| 0 <= j < i ==> !ticket_at(self@.tickets, id, j),
            decreases self.tickets.len() - i,
        {
            if self.tickets[i].id == id {
                return Some(i);
            }
            i += 1;
        }
        None
    }

    /// Registers `admin_id` as an admin (again, where it is one already) and creates a
    /// station under a fresh id. It is never refused; the message names both ids.
    pub fn init_system(&mut self, admin_id: u64, name: String, funds: u64) -> (res: Result<
        String,
        String,
    >)
        requires
            old(self)@.wf(),
            old(self)@.next_id < u64::MAX,
        ensures
            final(self)@ == old(self)@.init_system(admin_id, name@, funds),
            final(self)@.wf(),
            res matches Ok(m) && is_init_message(m@, admin_id, old(self)@.next_id),
    {
        if !self.is_admin(admin_id) {
            self.admins.push(AdminCap { admin_id });
            assert(self.admins@[self.admins@.len() - 1].admin_id == admin_id);
            assert forall|a: u64| old(self)@.admins.contains(a) implies #[trigger]
                self@.admins.contains(a) by {
                let i = choose|i: int|
                    0 <= i < old(self).admins@.len() && old(self).admins@[i].admin_id == a;
                assert(self.admins@[i].admin_id == a);
            }
        }
        assert(self@.admins =~= old(self)@.admins.insert(admin_id));
        let station_id = self.allocate_id();
        self.stations.push(Station { id: station_id, name, funds, train_ids: Vec::new() });
        proof {
            assert(self@ =~~= old(self)@.init_system(admin_id, name@, funds));
            lemma_init_system_wf(old(self)@, admin_id, name@, funds);
        }
        Ok(init_confirmation(admin_id, station_id))
    }

    /// Creates a train between two stations given by name, and attaches it to the
    /// first station that bears the departure name.
    pub fn create_train(
        &mut self,
        admin_id: u64,
        departure: String,
        arrival: String,
        seat_count: u64,
        price: u64,
        schedule: u64,
    ) -> (res: Result<Train, Error>)
        requires
            old(self)@.wf(),
            old(self)@.next_id < u64::MAX,
        ensures
            final(self)@ == old(self)@.create_train(
                admin_id,
                departure@,
                arrival@,
                seat_count,
                price,
                schedule,
            ),
            final(self)@.wf(),
            match res {
                Ok(t) => old(self)@.create_train_refusal(admin_id, departure@, arrival@) is None
                    && t@ == old(self)@.new_train(
                    departure@,
                    arrival@,
                    seat_count,
                    price,
                    schedule,
                ),
                Err(e) => old(self)@.create_train_refusal(admin_id, departure@, arrival@) == Some(
                    e.kind_of(),
                ) && (e.kind_of() == ErrorKind::UnAuthorized ==> e.text()
                    == "Unauthorized access"@) && (e.kind_of() == ErrorKind::InvalidInput
                    ==> e.text() == "Invalid station name(s)"@),
            },
    {
        if !self.is_admin(admin_id) {
            return Err(Error::refusal(ErrorKind::UnAuthorized, "Unauthorized access"));
        }
        let found = self.find_station_named(&departure);
        let arrival_found = self.find_station_named(&arrival);
        let at = match (found, arrival_found) {
            (Some(at), Some(_)) => at,
            _ => {
                proof {
                    if found is Some {
                        lemma_first_station_named(self@.stations, departure@, found.unwrap() as int);
                    }
                    if arrival_found is Some {
                        lemma_first_station_named(
                            self@.stations,
                            arrival@,
                            arrival_found.unwrap() as int,
                        );
                    }
                }
                return Err(Error::refusal(ErrorKind::InvalidInput, "Invalid station name(s)"));
            },
        };
        proof {
            lemma_first_station_named(self@.stations, departure@, at as int);
            lemma_first_station_named(self@.stations, arrival@, arrival_found.unwrap() as int);
        }
        let train_id = self.allocate_id();
        let train = Train {
            id: train_id,
            departure_station: departure,
            arrival_station: arrival,
            seats: make_seats(seat_count),
            price,
            schedule,
        };
        self.trains.push(train.clone());
        let mut station = self.stations[at].clone();
        station.train_ids.push(train_id);
        self.stations.set(at, station);
        proof {
            assert(self@ =~~= old(self)@.create_train(
                admin_id,
                departure@,
                arrival@,
                seat_count,
                price,
                schedule,
            ));
            lemma_create_train_wf(
                old(self)@,
                admin_id,
                departure@,
                arrival@,
                seat_count,
                price,
                schedule,
            );
        }
        Ok(train)
    }

    /// Sells seat `seat_number` of train `train_id` to `owner` at time `now`.
    pub fn buy_ticket(&mut self, train_id: u64, owner: String, seat_number: u64, now: u64) -> (res:
        Result<Ticket, Error>)
        requires
            old(self)@.wf(),
            old(self)@.next_id < u64::MAX,
        ensures
            final(self)@ == old(self)@.buy_ticket(train_id, owner@, seat_number, now),
            final(self)@.wf(),
            match res {
                Ok(t) => old(self)@.buy_ticket_refusal(train_id, seat_number) is None && t@
                    == old(self)@.new_ticket(train_id, owner@, seat_number, now),
                Err(e) => old(self)@.buy_ticket_refusal(train_id, seat_number) == Some(
                    e.kind_of(),
                ) && (e.kind_of() == ErrorKind::NotFound ==> e.text() == "Train not found"@) && (
                e.kind_of() == ErrorKind::AlreadyBooked ==> e.text() == "Seat already booked"@),
            },
    {
        let i = match self.find_train(train_id) {
            Some(i) => i,
            None => {
                return Err(Error::refusal(ErrorKind::NotFound, "Train not found"));
            },
        };
        proof {
            self@.lemma_train_index(train_id, i as int);
        }
        let free = match self.trains[i].seat(seat_number) {
            Some(BookingStatus::Available) => true,
            _ => false,
        };
        if !free {
            return Err(Error::refusal(ErrorKind::AlreadyBooked, "Seat already booked"));
        }
        let mut train = self.trains[i].clone();
        assert(train@.seats == old(self)@.trains[i as int].seats);
        let seat_count = train.seats.len();
        assert(1 <= seat_number && seat_number <= seat_count);
        train.seats.set((seat_number - 1) as usize, BookingStatus::Booked);
        assert(train@ =~~= with_seat(
            old(self)@.trains[i as int],
            seat_number,
            BookingStatus::Booked,
        ));
        self.trains.set(i, train);
        let ticket_id = self.allocate_id();
        let ticket = Ticket { id: ticket_id, train_id, owner, seat_number, launch_time: now };
        self.tickets.push(ticket.clone());
        proof {
            assert(self@ =~~= old(self)@.buy_ticket(train_id, owner@, seat_number, now));
            lemma_buy_ticket_wf(old(self)@, train_id, owner@, seat_number, now);
        }
        Ok(ticket)
    }

    /// Takes ticket `ticket_id` back at time `now`: the seat is available again and the
    /// ticket is gone.
    pub fn refund_ticket(&mut self, ticket_id: u64, now: u64) -> (res: Result<String, Error>)
        requires
            old(self)@.wf(),
        ensures
            final(self)@ == old(self)@.refund_ticket(ticket_id, now),
            final(self)@.wf(),
            match res {
                Ok(m) => old(self)@.refund_ticket_refusal(ticket_id, now) is None
                    && is_refund_message(m@, ticket_id),
                Err(e) => old(self)@.refund_ticket_refusal(ticket_id, now) == Some(e.kind_of())
                    && (e.kind_of() == ErrorKind::TrainDeparted ==> e.text()
                    == "Train has already departed"@) && (e.kind_of() == ErrorKind::NotFound
                    ==> e.text() == (if has_ticket(old(self)@.tickets, ticket_id) {
                    "Train not found"@
                } else {
                    "Ticket not found"@
                })),
            },
    {
        let k = match self.find_ticket(ticket_id) {
            Some(k) => k,
            None => {
                return Err(Error::refusal(ErrorKind::NotFound, "Ticket not found"));
            },
        };
        proof {
            self@.lemma_ticket_index(ticket_id, k as int);
        }
        if self.tickets[k].launch_time <= now {
            return Err(Error::refusal(ErrorKind::TrainDeparted, "Train has already departed"));
        }
        let seat_number = self.tickets[k].seat_number;
        let i = match self.find_train(self.tickets[k].train_id) {
            Some(i) => i,
            None => {
                return Err(Error::refusal(ErrorKind::NotFound, "Train not found"));
            },
        };
        proof {
            self@.lemma_train_index(self.tickets[k as int].train_id, i as int);
            assert(self@.holds_seat(k as int, i as int, seat_number));
        }
        let mut train = self.trains[i].clone();
        assert(train@.seats == old(self)@.trains[i as int].seats);
        assert(seat_status(train@.seats, seat_number) == Some(BookingStatus::Booked));
        let seat_count = train.seats.len();
        assert(1 <= seat_number && seat_number <= seat_count);
        train.seats.set((seat_number - 1) as usize, BookingStatus::Available);
        assert(train@ =~~= with_seat(
            old(self)@.trains[i as int],
            seat_number,
            BookingStatus::Available,
        ));
        self.trains.set(i, train);
        self.tickets.remove(k);
        proof {
            assert(self@ =~~= old(self)@.refund_ticket(ticket_id, now));
            lemma_refund_ticket_wf(old(self)@, ticket_id, now);
        }
        Ok(refund_confirmation(ticket_id))
    }

    /// Closes train `train_id`: its id leaves the first station that bears its
    /// departure name, and the train leaves the table. Its tickets stay.
    pub fn close_train(&mut self, admin_id: u64, train_id: u64) -> (res: Result<String, Error>)
        requires
            old(self)@.wf(),
        ensures
            final(self)@ == old(self)@.close_train(admin_id, train_id),
            final(self)@.wf(),
            match res {
                Ok(m) => old(self)@.close_train_refusal(admin_id, train_id) is None
                    && is_close_message(m@, train_id),
                Err(e) => old(self)@.close_train_refusal(admin_id, train_id) == Some(e.kind_of())
                    && (e.kind_of() == ErrorKind::UnAuthorized ==> e.text()
                    == "Unauthorized access"@) && (e.kind_of() == ErrorKind::NotFound ==> e.text()
                    == "Train not found"@),
            },
    {
        if !self.is_admin(admin_id) {
            return Err(Error::refusal(ErrorKind::UnAuthorized, "Unauthorized access"));
        }
        let i = match self.find_train(train_id) {
            Some(i) => i,
            None => {
                return Err(Error::refusal(ErrorKind::NotFound, "Train not found"));
            },
        };
        proof {
            self@.lemma_train_index(train_id, i as int);
        }
        let departure = self.trains[i].departure_station.clone();
        match self.find_station_named(&departure) {
            Some(at) => {
                proof {
                    lemma_first_station_named(self@.stations, departure@, at as int);
                }
                let mut station = self.stations[at].clone();
                station.train_ids = remove_id(&station.train_ids, train_id);
                self.stations.set(at, station);
            },
            None => {},
        }
        self.trains.remove(i);
        proof {
            assert(self@ =~~= old(self)@.close_train(admin_id, train_id));
            lemma_close_train_wf(old(self)@, admin_id, train_id);
        }
        Ok(close_confirmation(train_id))
    }

    /// Looks a train up by id.
    pub fn view_train(&self, train_id: u64) -> (res: Result<Train, Error>)
        requires
            self@.wf(),
        ensures
            match res {
                Ok(t) => self@.view_train(train_id) == Ok::<_, ErrorKind>(t@),
                Err(e) => self@.view_train(train_id) == Err::<TrainView, _>(e.kind_of())
                    && e.text() == "Train not found"@,
            },
    {
        match self.find_train(train_id) {
            Some(i) => {
                proof {
                    self@.lemma_train_index(train_id, i as int);
                }
                Ok(self.trains[i].clone())
            },
            None => Err(Error::refusal(ErrorKind::NotFound, "Train not found")),
        }
    }

    /// Looks a station up by id.
    pub fn view_station(&self, station_id: u64) -> (res: Result<Station, Error>)
        requires
            self@.wf(),
        ensures
            match res {
                Ok(s) => self@.view_station(station_id) == Ok::<_, ErrorKind>(s@),
                Err(e) => self@.view_station(station_id) == Err::<StationView, _>(e.kind_of())
                    && e.text() == "Station not found"@,
            },
    {
        match self.find_station(station_id) {
            Some(i) => {
                proof {
                    self@.lemma_station_index(station_id, i as int);
                }
                Ok(self.stations[i].clone())
            },
            None => Err(Error::refusal(ErrorKind::NotFound, "Station not found")),
        }
    }
}

/// Both station names of the train at place `i` are borne by a station.
spec fn routed(s: SystemView, i: int) -> bool {
    &&& has_station_named(s.stations, s.trains[i].departure_station)
    &&& has_station_named(s.stations, s.trains[i].arrival_station)
}

/// Some ticket is for seat `n` of the train at place `i`.
spec fn seat_is_held(s: SystemView, i: int, n: u64) -> bool {
    exists|k: int| s.holds_seat(k, i, n)
}

/// Whether `ids` holds `id`.
fn holds_id(ids: &Vec<u64>, id: u64) -> (b: bool)
    ensures
        b == ids@.contains(id),
{
    let mut a: usize = 0;
    while a < ids.len()
        invariant
            a <= ids.len(),
            forall|c: int| 0 <= c < a ==> ids@[c] != id,
        decreases ids.len() - a,
    {
        if ids[a] == id {
            return true;
        }
        a += 1;
    }
    false
}

impl RailSystem {
    /// Takes over tables and a counter that were kept elsewhere, where they make up a
    /// well-formed state.
    pub fn restore(
        next_id: u64,
        admins: Vec<AdminCap>,
        stations: Vec<Station>,
        trains: Vec<Train>,
        tickets: Vec<Ticket>,
    ) -> (r: Option<RailSystem>)
        ensures
            r is Some <==> state_of(next_id, admins@, stations@, trains@, tickets@).wf(),
            r matches Some(s) ==> s@ == state_of(next_id, admins@, stations@, trains@, tickets@),
    {
        let s = RailSystem { admins, stations, trains, tickets, next_id };
        if s.is_well_formed() {
            Some(s)
        } else {
            None
        }
    }

    /// Whether the state is well formed. Every state that `new` and the operations
    /// produce is.
    pub fn is_well_formed(&self) -> (b: bool)
        ensures
            b == self@.wf(),
    {
        self.ids_are_ordered() && self.ids_are_disjoint() && self.routes_are_resolved()
            && self.trains_are_attached() && self.bookings_are_consistent()
    }

    fn ids_are_ordered(&self) -> (b: bool)
        ensures
            b == self@.ids_ordered(),
    {
        let mut i: usize = 0;
        while i < self.stations.len()
            invariant
                i <= self.stations@.len(),
                forall|a: int, c: int|
                    0 <= a < c < i ==> #[trigger] self@.stations[a].id
                        < #[trigger] self@.stations[c].id,
                forall|a: int| 0 <= a < i ==> #[trigger] self@.stations[a].id < self@.next_id,
            decreases self.stations.len() - i,
        {
            if self.stations[i].id >= self.next_id {
                assert(!(self@.stations[i as int].id < self@.next_id));
                return false;
            }
            if i > 0 && self.stations[i - 1].id >= self.stations[i].id {
                assert(!(self@.stations[i - 1].id < self@.stations[i as int].id));
                return false;
            }
            assert forall|a: int| 0 <= a < i implies #[trigger] self@.stations[a].id
                < self@.stations[i as int].id by {
                if a < i - 1 {
                    assert(self@.stations[a].id < self@.stations[i - 1].id);
                }
            }
            i += 1;
        }
        let mut i: usize = 0;
        while i < self.trains.len()
            invariant
                i <= self.trains@.len(),
                forall|a: int, c: int|
                    0 <= a < c < i ==> #[trigger] self@.trains[a].id < #[trigger] self@.trains[c].id,
                forall|a: int| 0 <= a < i ==> #[trigger] self@.trains[a].id < self@.next_id,
            decreases self.trains.len() - i,
        {
            if self.trains[i].id >= self.next_id {
                assert(!(self@.trains[i as int].id < self@.next_id));
                return false;
            }
            if i > 0 && self.trains[i - 1].id >= self.trains[i].id {
                assert(!(self@.trains[i - 1].id < self@.trains[i as int].id));
                return false;
            }
            assert forall|a: int| 0 <= a < i implies #[trigger] self@.trains[a].id
                < self@.trains[i as int].id by {
                if a < i - 1 {
                    assert(self@.trains[a].id < self@.trains[i - 1].id);
                }
            }
            i += 1;
        }
        let mut i: usize = 0;
        while i < self.tickets.len()
            invariant
                i <= self.tickets@.len(),
                forall|a: int, c: int|
                    0 <= a < c < i ==> #[trigger] self@.tickets[a].id
                        < #[trigger] self@.tickets[c].id,
                forall|a: int|
                    0 <= a < i ==> #[trigger] self@.tickets[a].id < self@.next_id
                        && self@.tickets[a].train_id < self@.next_id,
            decreases self.tickets.len() - i,
        {
            if self.tickets[i].id >= self.next_id {
                assert(!(self@.tickets[i as int].id < self@.next_id));
                return false;
            }
            if self.tickets[i].train_id >= self.next_id {
                assert(self@.tickets[i as int].id < self@.next_id);
                assert(!(self@.tickets[i as int].train_id < self@.next_id));
                return false;
            }
            if i > 0 && self.tickets[i - 1].id >= self.tickets[i].id {
                assert(!(self@.tickets[i - 1].id < self@.tickets[i as int].id));
                return false;
            }
            assert forall|a: int| 0 <= a < i implies #[trigger] self@.tickets[a].id
                < self@.tickets[i as int].id by {
                if a < i - 1 {
                    assert(self@.tickets[a].id < self@.tickets[i - 1].id);
                }
            }
            i += 1;
        }
        true
    }

    fn ids_are_disjoint(&self) -> (b: bool)
        ensures
            b == self@.ids_disjoint(),
    {
        let mut i: usize = 0;
        while i < self.stations.len()
            invariant
                i <= self.stations@.len(),
                forall|a: int, j: int|
                    0 <= a < i && 0 <= j < self@.trains.len() ==> #[trigger] self@.stations[a].id
                        != #[trigger] self@.trains[j].id,
                forall|a: int, k: int|
                    0 <= a < i && 0 <= k < self@.tickets.len() ==> #[trigger] self@.stations[a].id
                        != #[trigger] self@.tickets[k].id,
            decreases self.stations.len() - i,
        {
            let id = self.stations[i].id;
            match self.find_train(id) {
                Some(j) => {
                    assert(self@.stations[i as int].id == self@.trains[j as int].id);
                    return false;
                },
                None => {
                    assert forall|j: int| 0 <= j < self@.trains.len() implies self@.stations[i as int].id
                        != #[trigger] self@.trains[j].id by {
                        assert(!train_at(self@.trains, id, j));
                    }
                },
            }
            match self.find_ticket(id) {
                Some(k) => {
                    assert(self@.stations[i as int].id == self@.tickets[k as int].id);
                    return false;
                },
                None => {
                    assert forall|k: int| 0 <= k < self@.tickets.len() implies self@.stations[i as int].id
                        != #[trigger] self@.tickets[k].id by {
                        assert(!ticket_at(self@.tickets, id, k));
                    }
                },
            }
            i += 1;
        }
        let mut j: usize = 0;
        while j < self.trains.len()
            invariant
                j <= self.trains@.len(),
                forall|a: int, k: int|
                    0 <= a < j && 0 <= k < self@.tickets.len() ==> #[trigger] self@.trains[a].id
                        != #[trigger] self@.tickets[k].id,
            decreases self.trains.len() - j,
        {
            let id = self.trains[j].id;
            match self.find_ticket(id) {
                Some(k) => {
                    assert(self@.trains[j as int].id == self@.tickets[k as int].id);
                    return false;
                },
                None => {
                    assert forall|k: int| 0 <= k < self@.tickets.len() implies self@.trains[j as int].id
                        != #[trigger] self@.tickets[k].id by {
                        assert(!ticket_at(self@.tickets, id, k));
                    }
                },
            }
            j += 1;
        }
        true
    }

    fn routes_are_resolved(&self) -> (b: bool)
        ensures
            b == self@.routes_resolve(),
    {
        let mut i: usize = 0;
        while i < self.trains.len()
            invariant
                i <= self.trains@.len(),
                forall|a: int|
                    0 <= a < i ==> routed(self@, a),
            decreases self.trains.len() - i,
        {
            let departs = self.find_station_named(&self.trains[i].departure_station);
            let arrives = self.find_station_named(&self.trains[i].arrival_station);
            let ghost t = self@.trains[i as int];
            assert(t.departure_station == self.trains@[i as int].departure_station@);
            assert(t.arrival_station == self.trains@[i as int].arrival_station@);
            match (departs, arrives) {
                (Some(d), Some(a)) => {
                    proof {
                        assert(is_first_station_named(self@.stations, t.departure_station, d as int));
                        assert(is_first_station_named(self@.stations, t.arrival_station, a as int));
                        lemma_first_station_named(self@.stations, t.departure_station, d as int);
                        lemma_first_station_named(self@.stations, t.arrival_station, a as int);
                        assert(has_station_named(self@.stations, t.departure_station));
                        assert(has_station_named(self@.stations, t.arrival_station));
                    }
                },
                _ => {
                    assert(!has_station_named(self@.stations, t.departure_station)
                        || !has_station_named(self@.stations, t.arrival_station));
                    assert(!(has_station_named(
                        self@.stations,
                        self@.trains[i as int].departure_station,
                    ) && has_station_named(self@.stations, self@.trains[i as int].arrival_station)));
                    return false;
                },
            }
            assert(routed(self@, i as int));
            i += 1;
        }
        assert forall|a: int| 0 <= a < self@.trains.len() implies has_station_named(
            self@.stations,
            #[trigger] self@.trains[a].departure_station,
        ) && has_station_named(self@.stations, self@.trains[a].arrival_station) by {
            assert(routed(self@, a));
        }
        true
    }
}

impl RailSystem {
    fn trains_are_attached(&self) -> (b: bool)
        requires
            self@.ids_ordered(),
            self@.routes_resolve(),
        ensures
            b == self@.trains_attached(),
    {
        let mut j: usize = 0;
        while j < self.stations.len()
            invariant
                j <= self.stations@.len(),
                self@.ids_ordered(),
                forall|a: int, x: u64|
                    0 <= a < j && #[trigger] self@.stations[a].train_ids.contains(x)
                        ==> self@.attached(a, x),
            decreases self.stations.len() - j,
        {
            let listed = self.stations[j].train_ids.len();
            let mut a: usize = 0;
            while a < listed
                invariant
                    j < self.stations@.len(),
                    listed == self.stations@[j as int].train_ids@.len(),
                    a <= listed,
                    self@.ids_ordered(),
                    forall|c: int|
                        0 <= c < a ==> self@.attached(
                            j as int,
                            #[trigger] self.stations@[j as int].train_ids@[c],
                        ),
                decreases listed - a,
            {
                let x = self.stations[j].train_ids[a];
                let found = self.find_train(x);
                let at = match found {
                    Some(i) => self.find_station_named(&self.trains[i].departure_station),
                    None => None,
                };
                let ok = match at {
                    Some(w) => w == j,
                    None => false,
                };
                assert(self@.stations[j as int].train_ids[a as int] == x);
                if !ok {
                    proof {
                        assert(self@.stations[j as int].train_ids.contains(x));
                        if self@.attached(j as int, x) {
                            let i2 = choose|i: int| #[trigger]
                                train_at(self@.trains, x, i) && is_first_station_named(
                                    self@.stations,
                                    self@.trains[i].departure_station,
                                    j as int,
                                );
                            let i = found.unwrap() as int;
                            self@.lemma_train_index(x, i);
                            self@.lemma_train_index(x, i2);
                            lemma_first_station_named(
                                self@.stations,
                                self@.trains[i].departure_station,
                                j as int,
                            );
                            if at is Some {
                                lemma_first_station_named(
                                    self@.stations,
                                    self@.trains[i].departure_station,
                                    at.unwrap() as int,
                                );
                            }
                        }
                    }
                    return false;
                }
                proof {
                    let i = found.unwrap() as int;
                    assert(train_at(self@.trains, x, i) && is_first_station_named(
                        self@.stations,
                        self@.trains[i].departure_station,
                        j as int,
                    ));
                    assert(self@.attached(j as int, x));
                }
                a += 1;
            }
            j += 1;
        }
        let mut i: usize = 0;
        while i < self.trains.len()
            invariant
                i <= self.trains@.len(),
                self@.routes_resolve(),
                forall|a: int|
                    0 <= a < i ==> self@.stations[first_station_named(
                        self@.stations,
                        (#[trigger] self@.trains[a]).departure_station,
                    )].train_ids.contains(self@.trains[a].id),
            decreases self.trains.len() - i,
        {
            let at = self.find_station_named(&self.trains[i].departure_station);
            let listed = match at {
                Some(w) => holds_id(&self.stations[w].train_ids, self.trains[i].id),
                None => false,
            };
            proof {
                assert(has_station_named(self@.stations, self@.trains[i as int].departure_station));
                lemma_first_station_named(
                    self@.stations,
                    self@.trains[i as int].departure_station,
                    at.unwrap() as int,
                );
            }
            if !listed {
                proof {
                    let w = at.unwrap() as int;
                    assert(train_at(self@.trains, self@.trains[i as int].id, i as int)
                        && is_first_station_named(
                        self@.stations,
                        self@.trains[i as int].departure_station,
                        w,
                    ));
                    assert(self@.attached(w, self@.trains[i as int].id));
                    assert(!self@.stations[w].train_ids.contains(self@.trains[i as int].id));
                }
                return false;
            }
            i += 1;
        }
        proof {
            assert forall|j: int, x: u64| 0 <= j < self@.stations.len() implies (
            #[trigger] self@.stations[j].train_ids.contains(x) <==> self@.attached(j, x)) by {
                if self@.attached(j, x) {
                    let i = choose|i: int| #[trigger]
                        train_at(self@.trains, x, i) && is_first_station_named(
                            self@.stations,
                            self@.trains[i].departure_station,
                            j,
                        );
                    lemma_first_station_named(
                        self@.stations,
                        self@.trains[i].departure_station,
                        j,
                    );
                    assert(self@.trains[i].id == x);
                }
            }
        }
        true
    }

    /// Whether some ticket is for seat `n` of train `train_id`.
    fn has_ticket_for(&self, train_id: u64, n: u64) -> (b: bool)
        ensures
            b == exists|k: int|
                0 <= k < self@.tickets.len() && (#[trigger] self@.tickets[k]).train_id == train_id
                    && self@.tickets[k].seat_number == n,
    {
        let mut k: usize = 0;
        while k < self.tickets.len()
            invariant
                k <= self.tickets@.len(),
                forall|c: int|
                    0 <= c < k ==> !((#[trigger] self@.tickets[c]).train_id == train_id
                        && self@.tickets[c].seat_number == n),
            decreases self.tickets.len() - k,
        {
            if self.tickets[k].train_id == train_id && self.tickets[k].seat_number == n {
                assert(self@.tickets[k as int].train_id == train_id);
                return true;
            }
            k += 1;
        }
        false
    }

    fn tickets_hold_booked_seats(&self) -> (b: bool)
        requires
            self@.ids_ordered(),
        ensures
            b == (forall|k: int, i: int, n: u64| #[trigger]
                self@.holds_seat(k, i, n) ==> seat_status(self@.trains[i].seats, n) == Some(
                    BookingStatus::Booked,
                )),
    {
        let mut k: usize = 0;
        while k < self.tickets.len()
            invariant
                k <= self.tickets@.len(),
                self@.ids_ordered(),
                forall|c: int, i: int, n: u64|
                    0 <= c < k && #[trigger] self@.holds_seat(c, i, n) ==> seat_status(
                        self@.trains[i].seats,
                        n,
                    ) == Some(BookingStatus::Booked),
            decreases self.tickets.len() - k,
        {
            let n = self.tickets[k].seat_number;
            let found = self.find_train(self.tickets[k].train_id);
            let ok = match found {
                Some(i) => match self.trains[i].seat(n) {
                    Some(BookingStatus::Booked) => true,
                    _ => false,
                },
                None => true,
            };
            if !ok {
                assert(self@.holds_seat(k as int, found.unwrap() as int, n));
                return false;
            }
            assert forall|i: int, m: u64| #[trigger] self@.holds_seat(k as int, i, m) implies seat_status(
                self@.trains[i].seats,
                m,
            ) == Some(BookingStatus::Booked) by {
                assert(train_at(self@.trains, self@.tickets[k as int].train_id, i));
                self@.lemma_train_index(self@.tickets[k as int].train_id, i);
                self@.lemma_train_index(self@.tickets[k as int].train_id, found.unwrap() as int);
            }
            k += 1;
        }
        true
    }

    fn seats_are_sold_once(&self) -> (b: bool)
        ensures
            b == (forall|k1: int, k2: int, i: int, n: u64|
                #[trigger] self@.holds_seat(k1, i, n) && #[trigger] self@.holds_seat(k2, i, n)
                    ==> k1 == k2),
    {
        let mut k1: usize = 0;
        while k1 < self.tickets.len()
            invariant
                k1 <= self.tickets@.len(),
                forall|c1: int, c2: int, i: int, n: u64|
                    0 <= c1 < k1 && c1 < c2 && #[trigger] self@.holds_seat(c1, i, n)
                        && #[trigger] self@.holds_seat(c2, i, n) ==> false,
            decreases self.tickets.len() - k1,
        {
            let found = self.find_train(self.tickets[k1].train_id);
            let mut k2: usize = k1 + 1;
            while k2 < self.tickets.len()
                invariant
                    k1 < self.tickets@.len(),
                    k1 < k2 <= self.tickets@.len(),
                    match found {
                        Some(i) => train_at(
                            self@.trains,
                            self@.tickets[k1 as int].train_id,
                            i as int,
                        ),
                        None => !has_train(self@.trains, self@.tickets[k1 as int].train_id),
                    },
                    forall|c2: int, i: int, n: u64|
                        k1 < c2 < k2 && #[trigger] self@.holds_seat(k1 as int, i, n)
                            && #[trigger] self@.holds_seat(c2, i, n) ==> false,
                decreases self.tickets.len() - k2,
            {
                if found.is_some() && self.tickets[k2].train_id == self.tickets[k1].train_id
                    && self.tickets[k2].seat_number == self.tickets[k1].seat_number {
                    let ghost i = found.unwrap() as int;
                    let ghost n = self@.tickets[k1 as int].seat_number;
                    assert(self@.holds_seat(k1 as int, i, n) && self@.holds_seat(k2 as int, i, n));
                    return false;
                }
                assert forall|i: int, n: u64| #[trigger]
                    self@.holds_seat(k1 as int, i, n) && #[trigger] self@.holds_seat(
                        k2 as int,
                        i,
                        n,
                    ) implies false by {
                    assert(train_at(self@.trains, self@.tickets[k1 as int].train_id, i));
                }
                k2 += 1;
            }
            k1 += 1;
        }
        proof {
            assert forall|k1: int, k2: int, i: int, n: u64|
                #[trigger] self@.holds_seat(k1, i, n) && #[trigger] self@.holds_seat(
                    k2,
                    i,
                    n,
                ) implies k1 == k2 by {
                if k1 < k2 {
                    assert(self@.holds_seat(k1, i, n) && self@.holds_seat(k2, i, n));
                } else if k2 < k1 {
                    assert(self@.holds_seat(k2, i, n) && self@.holds_seat(k1, i, n));
                }
            }
        }
        true
    }

    fn booked_seats_have_tickets(&self) -> (b: bool)
        ensures
            b == (forall|i: int, n: u64|
                0 <= i < self@.trains.len() && #[trigger] seat_status(self@.trains[i].seats, n)
                    == Some(BookingStatus::Booked) ==> exists|k: int| self@.holds_seat(k, i, n)),
    {
        let mut i: usize = 0;
        while i < self.trains.len()
            invariant
                i <= self.trains@.len(),
                forall|a: int, n: u64|
                    0 <= a < i && #[trigger] seat_status(self@.trains[a].seats, n) == Some(
                        BookingStatus::Booked,
                    ) ==> exists|k: int| self@.holds_seat(k, a, n),
            decreases self.trains.len() - i,
        {
            let count = self.trains[i].seats.len();
            let mut c: usize = 0;
            while c < count
                invariant
                    i < self.trains@.len(),
                    count == self@.trains[i as int].seats.len(),
                    c <= count,
                    forall|d: int|
                        0 <= d < c && #[trigger] self@.trains[i as int].seats[d]
                            == BookingStatus::Booked ==> seat_is_held(
                            self@,
                            i as int,
                            (d + 1) as u64,
                        ),
                decreases count - c,
            {
                let booked = match self.trains[i].seats[c] {
                    BookingStatus::Booked => true,
                    BookingStatus::Available => false,
                };
                if booked {
                    let n: u64 = c as u64 + 1;
                    assert(seat_status(self@.trains[i as int].seats, n) == Some(
                        BookingStatus::Booked,
                    ));
                    if !self.has_ticket_for(self.trains[i].id, n) {
                        assert forall|k: int| !self@.holds_seat(k, i as int, n) by {
                            if self@.holds_seat(k, i as int, n) {
                                assert(self@.tickets[k].train_id == self@.trains[i as int].id);
                            }
                        }
                        return false;
                    }
                    let ghost k = choose|k: int|
                        0 <= k < self@.tickets.len() && (#[trigger] self@.tickets[k]).train_id
                            == self@.trains[i as int].id && self@.tickets[k].seat_number == n;
                    assert(self@.holds_seat(k, i as int, n));
                    assert(seat_is_held(self@, i as int, n));
                }
                c += 1;
            }
            assert forall|n: u64| #[trigger]
                seat_status(self@.trains[i as int].seats, n) == Some(
                    BookingStatus::Booked,
                ) implies exists|k: int| self@.holds_seat(k, i as int, n) by {
                let d = n - 1;
                assert(self@.trains[i as int].seats[d] == BookingStatus::Booked);
                assert((d + 1) as u64 == n);
                assert(seat_is_held(self@, i as int, n));
            }
            i += 1;
        }
        true
    }

    fn bookings_are_consistent(&self) -> (b: bool)
        requires
            self@.ids_ordered(),
        ensures
            b == self@.bookings_consistent(),
    {
        self.tickets_hold_booked_seats() && self.seats_are_sold_once()
            && self.booked_seats_have_tickets()
    }
}

} // verus!
