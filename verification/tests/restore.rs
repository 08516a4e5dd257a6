use rail_booking::{AdminCap, BookingStatus, RailSystem, Station, Ticket, Train};

fn station(id: u64, name: &str, train_ids: Vec<u64>) -> Station {
    Station { id, name: name.to_string(), funds: 0, train_ids }
}

fn train(id: u64, from: &str, to: &str, seats: Vec<BookingStatus>) -> Train {
    Train {
        id,
        departure_station: from.to_string(),
        arrival_station: to.to_string(),
        seats,
        price: 10,
        schedule: 20,
    }
}

fn ticket(id: u64, train_id: u64, seat_number: u64) -> Ticket {
    Ticket { id, train_id, owner: "o".to_string(), seat_number, launch_time: 5 }
}

const A: BookingStatus = BookingStatus::Available;
const B: BookingStatus = BookingStatus::Booked;

fn accepted(
    next_id: u64,
    stations: Vec<Station>,
    trains: Vec<Train>,
    tickets: Vec<Ticket>,
) -> bool {
    RailSystem::restore(next_id, vec![AdminCap { admin_id: 1 }], stations, trains, tickets)
        .is_some()
}

#[test]
fn restore_of_empty_tables_is_the_new_system() {
    let sys = RailSystem::restore(1, vec![], vec![], vec![], vec![]).unwrap();
    assert_eq!(sys.next_id(), 1);
    assert!(sys.stations().is_empty());
    assert!(sys.is_well_formed());
    assert!(RailSystem::new().is_well_formed());
    assert!(RailSystem::restore(0, vec![], vec![], vec![], vec![]).is_some());
}

#[test]
fn restore_gives_back_what_the_operations_made() {
    let mut sys = RailSystem::new();
    sys.init_system(1, "Central".to_string(), 1000).unwrap();
    sys.init_system(2, "North".to_string(), 0).unwrap();
    let t = sys.create_train(1, "Central".to_string(), "North".to_string(), 3, 5, 6).unwrap();
    let gone = sys.create_train(2, "North".to_string(), "North".to_string(), 1, 5, 6).unwrap();
    sys.buy_ticket(t.id, "a".to_string(), 2, 50).unwrap();
    sys.buy_ticket(gone.id, "b".to_string(), 1, 50).unwrap();
    sys.close_train(1, gone.id).unwrap();
    assert!(sys.is_well_formed());
    let mut back = RailSystem::restore(
        sys.next_id(),
        sys.admins().clone(),
        sys.stations().clone(),
        sys.trains().clone(),
        sys.tickets().clone(),
    )
    .unwrap();
    assert_eq!(back.next_id(), sys.next_id());
    assert_eq!(back.admins(), sys.admins());
    assert_eq!(back.stations(), sys.stations());
    assert_eq!(back.trains(), sys.trains());
    assert_eq!(back.tickets(), sys.tickets());
    assert!(back.is_admin(2));
    let next = back.buy_ticket(t.id, "c".to_string(), 1, 50).unwrap();
    assert_eq!(next.id, 7);
}

#[test]
fn restore_accepts_a_consistent_state() {
    assert!(accepted(
        10,
        vec![station(1, "X", vec![3]), station(2, "X", vec![])],
        vec![train(3, "X", "X", vec![A, B])],
        vec![ticket(4, 3, 2), ticket(6, 5, 9)],
    ));
}

#[test]
fn restore_refuses_ids_out_of_order_or_not_below_the_counter() {
    assert!(!accepted(10, vec![station(2, "X", vec![]), station(1, "Y", vec![])], vec![], vec![]));
    assert!(!accepted(10, vec![station(1, "X", vec![]), station(1, "Y", vec![])], vec![], vec![]));
    assert!(!accepted(1, vec![station(1, "X", vec![])], vec![], vec![]));
    assert!(!accepted(3, vec![station(1, "X", vec![3])], vec![train(3, "X", "X", vec![])], vec![]));
    assert!(!accepted(3, vec![], vec![], vec![ticket(3, 0, 1)]));
    assert!(!accepted(3, vec![], vec![], vec![ticket(1, 3, 1)]));
    assert!(!accepted(9, vec![], vec![], vec![ticket(2, 0, 1), ticket(1, 0, 1)]));
}

#[test]
fn restore_refuses_an_id_in_two_tables() {
    assert!(!accepted(10, vec![station(1, "X", vec![1])], vec![train(1, "X", "X", vec![])], vec![]));
    assert!(!accepted(10, vec![station(1, "X", vec![])], vec![], vec![ticket(1, 7, 1)]));
    assert!(!accepted(
        10,
        vec![station(1, "X", vec![2])],
        vec![train(2, "X", "X", vec![])],
        vec![ticket(2, 7, 1)],
    ));
}

#[test]
fn restore_refuses_a_route_without_station() {
    assert!(!accepted(10, vec![station(1, "X", vec![2])], vec![train(2, "X", "Y", vec![])], vec![]));
    assert!(!accepted(10, vec![station(1, "X", vec![])], vec![train(2, "Y", "X", vec![])], vec![]));
}

#[test]
fn restore_refuses_a_train_that_is_wrongly_attached() {
    // not listed at all
    assert!(!accepted(10, vec![station(1, "X", vec![])], vec![train(2, "X", "X", vec![])], vec![]));
    // listed at the second station of that name
    assert!(!accepted(
        10,
        vec![station(1, "X", vec![]), station(2, "X", vec![3])],
        vec![train(3, "X", "X", vec![])],
        vec![],
    ));
    // listed where it does not depart
    assert!(!accepted(
        10,
        vec![station(1, "X", vec![3]), station(2, "Y", vec![3])],
        vec![train(3, "X", "Y", vec![])],
        vec![],
    ));
    // a listed id that is no train
    assert!(!accepted(10, vec![station(1, "X", vec![5])], vec![], vec![]));
}

#[test]
fn restore_refuses_bookings_that_do_not_match_tickets() {
    let stations = || vec![station(1, "X", vec![2])];
    // a ticket for a seat that is available
    assert!(!accepted(10, stations(), vec![train(2, "X", "X", vec![A])], vec![ticket(3, 2, 1)]));
    // a ticket for a seat that the train does not have
    assert!(!accepted(10, stations(), vec![train(2, "X", "X", vec![B])], vec![ticket(3, 2, 2)]));
    // two tickets for one seat
    assert!(!accepted(
        10,
        stations(),
        vec![train(2, "X", "X", vec![B])],
        vec![ticket(3, 2, 1), ticket(4, 2, 1)],
    ));
    // a booked seat without a ticket
    assert!(!accepted(10, stations(), vec![train(2, "X", "X", vec![B])], vec![]));
    // two tickets for one seat of a train that was closed are no contradiction
    assert!(accepted(10, vec![], vec![], vec![ticket(3, 2, 1), ticket(4, 2, 1)]));
}
