//! The records of the four tables, each with its mathematical view.

use vstd::prelude::*;

verus! {

/// The state of one seat.
#[derive(Clone, Copy, PartialEq, Eq, Structural, Hash, Debug)]
pub enum BookingStatus {
    Available,
    Booked,
}

impl Default for BookingStatus {
    fn default() -> (r: Self)
        ensures
            r == BookingStatus::Available,
    {
        BookingStatus::Available
    }
}

/// A capability: its presence in the admin table authorizes `admin_id`.
#[derive(Clone, Copy, PartialEq, Eq, Structural, Hash, Debug)]
pub struct AdminCap {
    pub admin_id: u64,
}

/// A station and the trains that depart from it.
#[derive(PartialEq, Eq, Hash, Debug)]
pub struct Station {
    pub id: u64,
    pub name: String,
    pub funds: u64,
    pub train_ids: Vec<u64>,
}

/// A train. Seat number `n` (counted from 1) is stored at index `n - 1` of `seats`.
#[derive(PartialEq, Eq, Hash, Debug)]
pub struct Train {
    pub id: u64,
    pub departure_station: String,
    pub arrival_station: String,
    pub seats: Vec<BookingStatus>,
    pub price: u64,
    pub schedule: u64,
}

/// A sold seat. `launch_time` is the time of purchase.
#[derive(PartialEq, Eq, Hash, Debug)]
pub struct Ticket {
    pub id: u64,
    pub train_id: u64,
    pub owner: String,
    pub seat_number: u64,
    pub launch_time: u64,
}

/// Why an operation was refused.
#[derive(PartialEq, Eq, Debug)]
pub enum Error {
    NotFound { msg: String },
    UnAuthorized { msg: String },
    InvalidInput { msg: String },
    AlreadyBooked { msg: String },
    TrainDeparted { msg: String },
}

#[verifier::ext_equal]
pub struct StationView {
    pub id: u64,
    pub name: Seq<char>,
    pub funds: u64,
    pub train_ids: Seq<u64>,
}

#[verifier::ext_equal]
pub struct TrainView {
    pub id: u64,
    pub departure_station: Seq<char>,
    pub arrival_station: Seq<char>,
    pub seats: Seq<BookingStatus>,
    pub price: u64,
    pub schedule: u64,
}

#[verifier::ext_equal]
pub struct TicketView {
    pub id: u64,
    pub train_id: u64,
    pub owner: Seq<char>,
    pub seat_number: u64,
    pub launch_time: u64,
}

/// The five ways in which an operation is refused.
#[derive(Clone, Copy, PartialEq, Eq, Structural, Hash, Debug)]
pub enum ErrorKind {
    NotFound,
    UnAuthorized,
    InvalidInput,
    AlreadyBooked,
    TrainDeparted,
}

impl Error {
    pub open spec fn kind_of(&self) -> ErrorKind {
        match self {
            Error::NotFound { .. } => ErrorKind::NotFound,
            Error::UnAuthorized { .. } => ErrorKind::UnAuthorized,
            Error::InvalidInput { .. } => ErrorKind::InvalidInput,
            Error::AlreadyBooked { .. } => ErrorKind::AlreadyBooked,
            Error::TrainDeparted { .. } => ErrorKind::TrainDeparted,
        }
    }

    pub open spec fn text(&self) -> Seq<char> {
        match self {
            Error::NotFound { msg } => msg@,
            Error::UnAuthorized { msg } => msg@,
            Error::InvalidInput { msg } => msg@,
            Error::AlreadyBooked { msg } => msg@,
            Error::TrainDeparted { msg } => msg@,
        }
    }

    /// The error of kind `kind` that carries `text`.
    pub fn refusal(kind: ErrorKind, text: &str) -> (e: Error)
        ensures
            e.kind_of() == kind,
            e.text() == text@,
    {
        let msg = text.to_owned();
        match kind {
            ErrorKind::NotFound => Error::NotFound { msg },
            ErrorKind::UnAuthorized => Error::UnAuthorized { msg },
            ErrorKind::InvalidInput => Error::InvalidInput { msg },
            ErrorKind::AlreadyBooked => Error::AlreadyBooked { msg },
            ErrorKind::TrainDeparted => Error::TrainDeparted { msg },
        }
    }

    /// Which of the five refusals this is.
    pub fn kind(&self) -> (k: ErrorKind)
        ensures
            k == self.kind_of(),
    {
        match self {
            Error::NotFound { .. } => ErrorKind::NotFound,
            Error::UnAuthorized { .. } => ErrorKind::UnAuthorized,
            Error::InvalidInput { .. } => ErrorKind::InvalidInput,
            Error::AlreadyBooked { .. } => ErrorKind::AlreadyBooked,
            Error::TrainDeparted { .. } => ErrorKind::TrainDeparted,
        }
    }

    /// The message carried by the error.
    pub fn message(&self) -> (m: String)
        ensures
            m@ == self.text(),
    {
        match self {
            Error::NotFound { msg } => msg.clone(),
            Error::UnAuthorized { msg } => msg.clone(),
            Error::InvalidInput { msg } => msg.clone(),
            Error::AlreadyBooked { msg } => msg.clone(),
            Error::TrainDeparted { msg } => msg.clone(),
        }
    }
}

impl View for Station {
    type V = StationView;

    open spec fn view(&self) -> StationView {
        StationView { id: self.id, name: self.name@, funds: self.funds, train_ids: self.train_ids@ }
    }
}

impl View for Train {
    type V = TrainView;

    open spec fn view(&self) -> TrainView {
        TrainView {
            id: self.id,
            departure_station: self.departure_station@,
            arrival_station: self.arrival_station@,
            seats: self.seats@,
            price: self.price,
            schedule: self.schedule,
        }
    }
}

impl View for Ticket {
    type V = TicketView;

    open spec fn view(&self) -> TicketView {
        TicketView {
            id: self.id,
            train_id: self.train_id,
            owner: self.owner@,
            seat_number: self.seat_number,
            launch_time: self.launch_time,
        }
    }
}

/// The status of seat `n` in a seat map, or `None` where the train has no such seat.
pub open spec fn seat_status(seats: Seq<BookingStatus>, n: u64) -> Option<BookingStatus> {
    if 1 <= n && n <= seats.len() {
        Some(seats[n - 1])
    } else {
        None
    }
}

/// A seat map of `count` seats, all of them available.
pub open spec fn fresh_seats(count: u64) -> Seq<BookingStatus> {
    Seq::new(count as nat, |i: int| BookingStatus::Available)
}

impl Clone for Station {
    fn clone(&self) -> (r: Self)
        ensures
            r@ == self@,
    {
        let mut ids: Vec<u64> = Vec::new();
        let mut i: usize = 0;
        while i < self.train_ids.len()
            invariant
                i <= self.train_ids.len(),
                ids@ == self.train_ids@.take(i as int),
            decreases self.train_ids.len() - i,
        {
            ids.push(self.train_ids[i]);
            i += 1;
            assert(ids@ =~= self.train_ids@.take(i as int));
        }
        assert(ids@ =~= self.train_ids@);
        Station { id: self.id, name: self.name.clone(), funds: self.funds, train_ids: ids }
    }
}

impl Clone for Train {
    fn clone(&self) -> (r: Self)
        ensures
            r@ == self@,
    {
        let mut seats: Vec<BookingStatus> = Vec::new();
        let mut i: usize = 0;
        while i < self.seats.len()
            invariant
                i <= self.seats.len(),
                seats@ == self.seats@.take(i as int),
            decreases self.seats.len() - i,
        {
            seats.push(self.seats[i]);
            i += 1;
            assert(seats@ =~= self.seats@.take(i as int));
        }
        assert(seats@ =~= self.seats@);
        Train {
            id: self.id,
            departure_station: self.departure_station.clone(),
            arrival_station: self.arrival_station.clone(),
            seats,
            price: self.price,
            schedule: self.schedule,
        }
    }
}

impl Clone for Ticket {
    fn clone(&self) -> (r: Self)
        ensures
            r@ == self@,
    {
        Ticket {
            id: self.id,
            train_id: self.train_id,
            owner: self.owner.clone(),
            seat_number: self.seat_number,
            launch_time: self.launch_time,
        }
    }
}

impl Train {
    /// The status of seat `n`, or `None` where the train has no such seat.
    pub fn seat(&self, n: u64) -> (r: Option<BookingStatus>)
        ensures
            r == seat_status(self@.seats, n),
    {
        let count = self.seats.len();
        if n >= 1 && n - 1 < count as u64 {
            Some(self.seats[(n - 1) as usize])
        } else {
            None
        }
    }

    /// The number of seats of the train.
    pub fn seat_count(&self) -> (r: usize)
        ensures
            r == self@.seats.len(),
    {
        self.seats.len()
    }
}

} // verus!
