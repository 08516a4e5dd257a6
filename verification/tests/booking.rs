use rail_booking::messages::{
    close_confirmation, close_message, init_confirmation, init_message, refund_confirmation,
    refund_message,
};
use rail_booking::{AdminCap, BookingStatus, Error, ErrorKind, RailSystem, Station, Ticket, Train};

fn central() -> RailSystem {
    let mut sys = RailSystem::new();
    sys.init_system(1, "Central".to_string(), 1000).unwrap();
    sys.init_system(1, "North".to_string(), 0).unwrap();
    sys
}

fn booked_count(train: &Train) -> usize {
    train.seats.iter().filter(|s| **s == BookingStatus::Booked).count()
}

fn tickets_for(sys: &RailSystem, train_id: u64) -> usize {
    sys.tickets().iter().filter(|t| t.train_id == train_id).count()
}

#[test]
fn new_system_is_empty_and_starts_at_one() {
    let sys = RailSystem::new();
    assert_eq!(sys.next_id(), 1);
    assert!(sys.admins().is_empty());
    assert!(sys.stations().is_empty());
    assert!(sys.trains().is_empty());
    assert!(sys.tickets().is_empty());
    assert!(!sys.is_admin(1));
}

#[test]
fn init_system_registers_admin_and_station() {
    let mut sys = RailSystem::new();
    let res = sys.init_system(1, "Central".to_string(), 1000);
    assert_eq!(res, Ok("System initialized with admin 1 and station 1".to_string()));
    assert!(sys.is_admin(1));
    assert!(!sys.is_admin(2));
    assert_eq!(sys.admins(), &vec![AdminCap { admin_id: 1 }]);
    assert_eq!(
        sys.view_station(1),
        Ok(Station { id: 1, name: "Central".to_string(), funds: 1000, train_ids: vec![] })
    );
    assert_eq!(sys.next_id(), 2);
}

#[test]
fn init_system_twice_with_one_admin_keeps_one_cap() {
    let mut sys = RailSystem::new();
    assert_eq!(
        sys.init_system(7, "A".to_string(), 1),
        Ok("System initialized with admin 7 and station 1".to_string())
    );
    assert_eq!(
        sys.init_system(7, "B".to_string(), 2),
        Ok("System initialized with admin 7 and station 2".to_string())
    );
    assert_eq!(sys.admins().len(), 1);
    assert_eq!(sys.stations().len(), 2);
    assert_eq!(sys.stations()[1].name, "B");
    assert_eq!(sys.stations()[1].funds, 2);
}

#[test]
fn init_system_accepts_empty_name_and_zero_funds() {
    let mut sys = RailSystem::new();
    assert_eq!(
        sys.init_system(0, String::new(), 0),
        Ok("System initialized with admin 0 and station 1".to_string())
    );
    assert_eq!(sys.view_station(1).unwrap().name, "");
}

#[test]
fn require_admin_succeeds_only_for_registered() {
    let sys = central();
    assert_eq!(sys.require_admin(1), Ok(()));
    let e = sys.require_admin(2).unwrap_err();
    assert_eq!(e, Error::UnAuthorized { msg: "Unauthorized access".to_string() });
    assert_eq!(e.kind(), ErrorKind::UnAuthorized);
    assert_eq!(e.message(), "Unauthorized access");
}

#[test]
fn scenario_central_line() {
    let mut sys = RailSystem::new();
    assert_eq!(
        sys.init_system(1, "Central".to_string(), 1000),
        Ok("System initialized with admin 1 and station 1".to_string())
    );
    assert!(sys.is_admin(1));
    assert_eq!(sys.view_station(1).unwrap().id, 1);

    // No station bears the arrival name yet.
    let refused = sys.create_train(1, "Central".to_string(), "North".to_string(), 2, 50, 9999);
    assert_eq!(refused, Err(Error::InvalidInput { msg: "Invalid station name(s)".to_string() }));
    sys.init_system(1, "North".to_string(), 0).unwrap();

    let train = sys
        .create_train(1, "Central".to_string(), "North".to_string(), 2, 50, 9999)
        .unwrap();
    assert_eq!(train.seats, vec![BookingStatus::Available, BookingStatus::Available]);
    assert_eq!(train.seat(1), Some(BookingStatus::Available));
    assert_eq!(train.seat(2), Some(BookingStatus::Available));
    assert_eq!(train.seat(3), None);
    assert_eq!(train.seat(0), None);
    assert_eq!(train.seat_count(), 2);
    assert_eq!(train.price, 50);
    assert_eq!(train.schedule, 9999);
    assert_eq!(train.departure_station, "Central");
    assert_eq!(train.arrival_station, "North");
    let train_id = train.id;
    assert_eq!(sys.view_station(1).unwrap().train_ids, vec![train_id]);

    let ticket = sys.buy_ticket(train_id, "alice".to_string(), 1, 500).unwrap();
    assert_eq!(ticket.seat_number, 1);
    assert_eq!(ticket.train_id, train_id);
    assert_eq!(ticket.owner, "alice");
    assert_eq!(ticket.launch_time, 500);
    let now = sys.view_train(train_id).unwrap();
    assert_eq!(now.seats, vec![BookingStatus::Booked, BookingStatus::Available]);

    let second = sys.buy_ticket(train_id, "bob".to_string(), 1, 501);
    assert_eq!(second, Err(Error::AlreadyBooked { msg: "Seat already booked".to_string() }));

    assert_eq!(sys.close_train(1, train_id), Ok("Train 3 closed successfully".to_string()));
    assert!(!sys.view_station(1).unwrap().train_ids.contains(&train_id));
    assert_eq!(
        sys.view_train(train_id),
        Err(Error::NotFound { msg: "Train not found".to_string() })
    );
}

#[test]
fn create_train_refuses_unknown_admin_first() {
    let mut sys = central();
    let r = sys.create_train(9, "Nowhere".to_string(), "North".to_string(), 2, 50, 9999);
    assert_eq!(r, Err(Error::UnAuthorized { msg: "Unauthorized access".to_string() }));
    assert!(sys.trains().is_empty());
    assert_eq!(sys.next_id(), 3);
}

#[test]
fn create_train_refuses_unknown_departure() {
    let mut sys = central();
    let r = sys.create_train(1, "South".to_string(), "North".to_string(), 2, 50, 9999);
    assert_eq!(r.unwrap_err().kind(), ErrorKind::InvalidInput);
    assert!(sys.trains().is_empty());
    assert_eq!(sys.next_id(), 3);
}

#[test]
fn create_train_refuses_unknown_arrival() {
    let mut sys = central();
    let r = sys.create_train(1, "Central".to_string(), "South".to_string(), 2, 50, 9999);
    assert_eq!(r.unwrap_err().kind(), ErrorKind::InvalidInput);
    assert!(sys.view_station(1).unwrap().train_ids.is_empty());
}

#[test]
fn create_train_permits_equal_names_and_no_seats() {
    let mut sys = central();
    let t = sys.create_train(1, "North".to_string(), "North".to_string(), 0, 0, 0).unwrap();
    assert_eq!(t.id, 3);
    assert!(t.seats.is_empty());
    assert_eq!(sys.view_station(2).unwrap().train_ids, vec![3]);
    assert_eq!(
        sys.buy_ticket(3, "a".to_string(), 1, 0).unwrap_err().kind(),
        ErrorKind::AlreadyBooked
    );
}

#[test]
fn create_train_attaches_to_first_station_of_that_name() {
    let mut sys = RailSystem::new();
    sys.init_system(1, "Twin".to_string(), 1).unwrap();
    sys.init_system(1, "Twin".to_string(), 2).unwrap();
    let t = sys.create_train(1, "Twin".to_string(), "Twin".to_string(), 1, 5, 5).unwrap();
    assert_eq!(sys.view_station(1).unwrap().train_ids, vec![t.id]);
    assert!(sys.view_station(2).unwrap().train_ids.is_empty());
    sys.close_train(1, t.id).unwrap();
    assert!(sys.view_station(1).unwrap().train_ids.is_empty());
    assert!(sys.view_station(2).unwrap().train_ids.is_empty());
}

#[test]
fn buy_ticket_refuses_unknown_train() {
    let mut sys = central();
    let r = sys.buy_ticket(42, "alice".to_string(), 1, 0);
    assert_eq!(r, Err(Error::NotFound { msg: "Train not found".to_string() }));
    assert!(sys.tickets().is_empty());
}

#[test]
fn buy_ticket_refuses_seat_out_of_range() {
    let mut sys = central();
    let t = sys.create_train(1, "Central".to_string(), "North".to_string(), 2, 50, 9999).unwrap();
    for seat in [0u64, 3, u64::MAX] {
        let r = sys.buy_ticket(t.id, "alice".to_string(), seat, 0);
        assert_eq!(r.unwrap_err().kind(), ErrorKind::AlreadyBooked);
    }
    assert_eq!(sys.view_train(t.id), Ok(t));
    assert!(sys.tickets().is_empty());
}

#[test]
fn buy_ticket_ignores_the_schedule() {
    let mut sys = central();
    let t = sys.create_train(1, "Central".to_string(), "North".to_string(), 1, 50, 10).unwrap();
    let ticket = sys.buy_ticket(t.id, "late".to_string(), 1, 11).unwrap();
    assert_eq!(
        ticket,
        Ticket { id: 4, train_id: 3, owner: "late".to_string(), seat_number: 1, launch_time: 11 }
    );
}

#[test]
fn refund_ticket_refuses_unknown_ticket() {
    let mut sys = central();
    assert_eq!(
        sys.refund_ticket(5, 0),
        Err(Error::NotFound { msg: "Ticket not found".to_string() })
    );
}

#[test]
fn refund_ticket_refuses_at_or_after_purchase_time() {
    let mut sys = central();
    let t = sys.create_train(1, "Central".to_string(), "North".to_string(), 2, 50, 9999).unwrap();
    let ticket = sys.buy_ticket(t.id, "alice".to_string(), 2, 100).unwrap();
    for now in [100u64, 101, u64::MAX] {
        assert_eq!(
            sys.refund_ticket(ticket.id, now),
            Err(Error::TrainDeparted { msg: "Train has already departed".to_string() })
        );
    }
    assert_eq!(sys.view_train(t.id).unwrap().seat(2), Some(BookingStatus::Booked));
    assert_eq!(sys.tickets().len(), 1);
}

#[test]
fn refund_ticket_frees_the_seat_before_purchase_time() {
    let mut sys = central();
    let t = sys.create_train(1, "Central".to_string(), "North".to_string(), 2, 50, 9999).unwrap();
    let a = sys.buy_ticket(t.id, "alice".to_string(), 1, 100).unwrap();
    let b = sys.buy_ticket(t.id, "bob".to_string(), 2, 100).unwrap();
    assert_eq!(sys.refund_ticket(a.id, 99), Ok("Ticket 4 refunded successfully".to_string()));
    assert_eq!(a.id, 4);
    let train = sys.view_train(t.id).unwrap();
    assert_eq!(train.seats, vec![BookingStatus::Available, BookingStatus::Booked]);
    assert_eq!(sys.tickets(), &vec![b]);
    let again = sys.buy_ticket(t.id, "carol".to_string(), 1, 100).unwrap();
    assert_eq!(again.id, 6);
    assert_eq!(sys.view_train(t.id).unwrap().seat(1), Some(BookingStatus::Booked));
}

#[test]
fn refund_of_a_ticket_for_a_closed_train_is_refused() {
    let mut sys = central();
    let t = sys.create_train(1, "Central".to_string(), "North".to_string(), 2, 50, 9999).unwrap();
    let a = sys.buy_ticket(t.id, "alice".to_string(), 1, 100).unwrap();
    sys.close_train(1, t.id).unwrap();
    assert_eq!(sys.tickets(), &vec![a.clone()]);
    assert_eq!(
        sys.refund_ticket(a.id, 0),
        Err(Error::NotFound { msg: "Train not found".to_string() })
    );
    assert_eq!(sys.tickets(), &vec![a]);
}

#[test]
fn close_train_refuses_unknown_admin_and_unknown_train() {
    let mut sys = central();
    let t = sys.create_train(1, "Central".to_string(), "North".to_string(), 2, 50, 9999).unwrap();
    assert_eq!(
        sys.close_train(2, t.id),
        Err(Error::UnAuthorized { msg: "Unauthorized access".to_string() })
    );
    assert_eq!(
        sys.close_train(1, 77),
        Err(Error::NotFound { msg: "Train not found".to_string() })
    );
    assert_eq!(sys.view_train(t.id), Ok(t));
}

#[test]
fn close_train_changes_one_station_only() {
    let mut sys = central();
    let a = sys.create_train(1, "Central".to_string(), "North".to_string(), 1, 1, 1).unwrap();
    let b = sys.create_train(1, "North".to_string(), "Central".to_string(), 1, 1, 1).unwrap();
    let c = sys.create_train(1, "Central".to_string(), "Central".to_string(), 1, 1, 1).unwrap();
    assert_eq!(sys.view_station(1).unwrap().train_ids, vec![a.id, c.id]);
    assert_eq!(sys.view_station(2).unwrap().train_ids, vec![b.id]);
    sys.close_train(1, a.id).unwrap();
    assert_eq!(sys.view_station(1).unwrap().train_ids, vec![c.id]);
    assert_eq!(sys.view_station(2).unwrap().train_ids, vec![b.id]);
    assert_eq!(sys.trains(), &vec![b, c]);
    assert_eq!(sys.view_train(a.id).unwrap_err().kind(), ErrorKind::NotFound);
}

#[test]
fn view_station_refuses_unknown_id() {
    let sys = central();
    assert_eq!(
        sys.view_station(3),
        Err(Error::NotFound { msg: "Station not found".to_string() })
    );
    assert_eq!(sys.view_station(2).unwrap().name, "North");
}

#[test]
fn ids_increase_and_are_never_reused() {
    let mut sys = RailSystem::new();
    let mut seen: Vec<u64> = Vec::new();
    sys.init_system(1, "Central".to_string(), 0).unwrap();
    seen.push(sys.stations()[0].id);
    let t = sys.create_train(1, "Central".to_string(), "Central".to_string(), 3, 1, 1).unwrap();
    seen.push(t.id);
    let k = sys.buy_ticket(t.id, "a".to_string(), 1, 10).unwrap();
    seen.push(k.id);
    sys.refund_ticket(k.id, 5).unwrap();
    seen.push(sys.buy_ticket(t.id, "a".to_string(), 1, 10).unwrap().id);
    sys.close_train(1, t.id).unwrap();
    seen.push(sys.create_train(1, "Central".to_string(), "Central".to_string(), 3, 1, 1).unwrap().id);
    sys.init_system(2, "East".to_string(), 0).unwrap();
    seen.push(sys.stations()[1].id);
    assert_eq!(seen, vec![1, 2, 3, 4, 5, 6]);
    assert_eq!(sys.next_id(), 7);
    // A refused operation allocates nothing.
    assert!(sys.buy_ticket(99, "a".to_string(), 1, 10).is_err());
    assert!(sys.create_train(3, "Central".to_string(), "East".to_string(), 1, 1, 1).is_err());
    assert_eq!(sys.next_id(), 7);
}

#[test]
fn booked_seats_match_tickets_on_every_train() {
    let mut sys = central();
    let a = sys.create_train(1, "Central".to_string(), "North".to_string(), 3, 1, 1).unwrap();
    let b = sys.create_train(1, "North".to_string(), "Central".to_string(), 2, 1, 1).unwrap();
    let k1 = sys.buy_ticket(a.id, "p".to_string(), 1, 10).unwrap();
    sys.buy_ticket(a.id, "q".to_string(), 3, 10).unwrap();
    sys.buy_ticket(b.id, "r".to_string(), 2, 10).unwrap();
    assert!(sys.buy_ticket(b.id, "s".to_string(), 2, 10).is_err());
    sys.refund_ticket(k1.id, 9).unwrap();
    assert!(sys.refund_ticket(k1.id, 9).is_err());
    for train in sys.trains() {
        assert_eq!(booked_count(train), tickets_for(&sys, train.id));
    }
    assert_eq!(booked_count(&sys.view_train(a.id).unwrap()), 1);
    assert_eq!(booked_count(&sys.view_train(b.id).unwrap()), 1);
}

#[test]
fn booking_status_defaults_to_available() {
    assert_eq!(BookingStatus::default(), BookingStatus::Available);
}

#[test]
fn refusal_carries_kind_and_text() {
    let kinds = [
        ErrorKind::NotFound,
        ErrorKind::UnAuthorized,
        ErrorKind::InvalidInput,
        ErrorKind::AlreadyBooked,
        ErrorKind::TrainDeparted,
    ];
    for kind in kinds {
        let e = Error::refusal(kind, "why");
        assert_eq!(e.kind(), kind);
        assert_eq!(e.message(), "why");
    }
    assert_eq!(
        Error::refusal(ErrorKind::TrainDeparted, "gone"),
        Error::TrainDeparted { msg: "gone".to_string() }
    );
}

#[test]
fn clones_are_equal_to_their_source() {
    let mut sys = central();
    let t = sys.create_train(1, "Central".to_string(), "North".to_string(), 2, 50, 9999).unwrap();
    let k = sys.buy_ticket(t.id, "alice".to_string(), 2, 7).unwrap();
    assert_eq!(k.clone(), k);
    let stored = sys.view_train(t.id).unwrap();
    assert_eq!(stored.clone(), stored);
    let st = sys.view_station(1).unwrap();
    assert_eq!(st.clone(), st);
}

#[test]
fn confirmations_are_built_around_the_ids() {
    assert_eq!(init_message("12", "34"), "System initialized with admin 12 and station 34");
    assert_eq!(init_message("", ""), "System initialized with admin  and station ");
    assert_eq!(refund_message("7"), "Ticket 7 refunded successfully");
    assert_eq!(
        close_message("18446744073709551615"),
        "Train 18446744073709551615 closed successfully"
    );
}

#[test]
fn confirmations_name_the_ids_in_decimal() {
    assert_eq!(
        init_confirmation(0, u64::MAX),
        "System initialized with admin 0 and station 18446744073709551615"
    );
    assert_eq!(refund_confirmation(1005), "Ticket 1005 refunded successfully");
    assert_eq!(close_confirmation(42), "Train 42 closed successfully");
}
