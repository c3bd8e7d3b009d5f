use ferry_connections::{Journey, JourneyRecord, Leg, MalformedJourney};

fn text(s: &str) -> Option<String> {
    Some(s.to_string())
}

fn leg(departure: Option<String>, arrival: Option<String>) -> Leg {
    Leg {
        line_name: text("Bus 5"),
        mode: text("bus"),
        origin_name: text("Harbour"),
        destination_name: text("Market"),
        departure,
        arrival,
    }
}

#[test]
fn journey_from_a_single_leg() {
    let record = JourneyRecord {
        legs: vec![leg(text("2024-05-01T08:00:00Z"), text("2024-05-01T09:00:00Z"))],
    };
    let journey = Journey::from_record(&record).unwrap();
    assert_eq!(journey.name(), "Bus 5");
    assert_eq!(journey.origin(), "Harbour");
    assert_eq!(journey.destination(), "Market");
    assert_eq!(journey.departure().secs(), 1_714_550_400);
    assert_eq!(journey.arrival().secs(), 1_714_554_000);
}

#[test]
fn journey_takes_first_and_last_leg() {
    let first = Leg {
        line_name: text("Line A"),
        mode: text("bus"),
        origin_name: text("Start"),
        destination_name: text("Change 1"),
        departure: text("2024-05-01T08:00:00Z"),
        arrival: text("2024-05-01T08:10:00Z"),
    };
    let middle = Leg {
        line_name: None,
        mode: None,
        origin_name: None,
        destination_name: None,
        departure: None,
        arrival: text("garbage"),
    };
    let last = Leg {
        line_name: text("Line C"),
        mode: text("train"),
        origin_name: text("Change 2"),
        destination_name: text("End"),
        departure: text("2024-05-01T08:30:00Z"),
        arrival: text("2024-05-01T09:00:00Z"),
    };
    let record = JourneyRecord { legs: vec![first, middle, last] };
    let journey = Journey::from_record(&record).unwrap();
    assert_eq!(journey.name(), "Line A");
    assert_eq!(journey.origin(), "Start");
    assert_eq!(journey.destination(), "End");
    assert_eq!(journey.departure().clock_text(), "08:00");
    assert_eq!(journey.arrival().clock_text(), "09:00");
}

#[test]
fn journey_name_falls_back_to_mode_then_bus() {
    let mut only = leg(text("2024-05-01T08:00:00Z"), text("2024-05-01T09:00:00Z"));
    only.line_name = None;
    let journey = Journey::from_record(&JourneyRecord { legs: vec![only] }).unwrap();
    assert_eq!(journey.name(), "bus");

    let mut only = leg(text("2024-05-01T08:00:00Z"), text("2024-05-01T09:00:00Z"));
    only.line_name = None;
    only.mode = None;
    let journey = Journey::from_record(&JourneyRecord { legs: vec![only] }).unwrap();
    assert_eq!(journey.name(), "Bus");
}

#[test]
fn journey_without_stop_names_has_empty_names() {
    let mut only = leg(text("2024-05-01T08:00:00Z"), text("2024-05-01T09:00:00Z"));
    only.origin_name = None;
    only.destination_name = None;
    let journey = Journey::from_record(&JourneyRecord { legs: vec![only] }).unwrap();
    assert_eq!(journey.origin(), "");
    assert_eq!(journey.destination(), "");
}

#[test]
fn record_without_legs_is_refused() {
    let refused = Journey::from_record(&JourneyRecord { legs: vec![] });
    assert_eq!(refused.err(), Some(MalformedJourney::NoLegs));
}

#[test]
fn record_without_departure_is_refused() {
    let record = JourneyRecord { legs: vec![leg(None, None)] };
    assert_eq!(Journey::from_record(&record).err(), Some(MalformedJourney::MissingDeparture));
}

#[test]
fn record_without_arrival_is_refused() {
    let record = JourneyRecord { legs: vec![leg(text("not a time"), None)] };
    assert_eq!(Journey::from_record(&record).err(), Some(MalformedJourney::MissingArrival));
}

#[test]
fn record_with_unreadable_departure_is_refused() {
    let record = JourneyRecord { legs: vec![leg(text("08:00"), text("09:00"))] };
    assert_eq!(Journey::from_record(&record).err(), Some(MalformedJourney::BadDeparture));
}

#[test]
fn record_with_unreadable_arrival_is_refused() {
    let record = JourneyRecord { legs: vec![leg(text("2024-05-01T08:00:00Z"), text("09:00"))] };
    assert_eq!(Journey::from_record(&record).err(), Some(MalformedJourney::BadArrival));
}

#[test]
fn record_that_arrives_before_it_departs_is_refused() {
    let record = JourneyRecord {
        legs: vec![leg(text("2024-05-01T09:00:00Z"), text("2024-05-01T08:59:59Z"))],
    };
    assert_eq!(
        Journey::from_record(&record).err(),
        Some(MalformedJourney::ArrivalBeforeDeparture)
    );
}

#[test]
fn journey_may_arrive_when_it_departs() {
    let record = JourneyRecord {
        legs: vec![leg(text("2024-05-01T09:00:00Z"), text("2024-05-01T11:00:00+02:00"))],
    };
    assert!(Journey::from_record(&record).is_ok());
}

#[test]
fn readings_are_checked_in_order() {
    let make = |d: Option<(i64, u32)>, a: Option<(i64, u32)>| {
        Journey::from_readings("n".to_string(), "o".to_string(), "d".to_string(), d, a).err()
    };
    assert_eq!(make(None, None), Some(MalformedJourney::BadDeparture));
    assert_eq!(make(Some((i64::MAX, 0)), None), Some(MalformedJourney::BadDeparture));
    assert_eq!(make(Some((0, 0)), None), Some(MalformedJourney::BadArrival));
    assert_eq!(make(Some((0, 0)), Some((0, 2_000_000_000))), Some(MalformedJourney::BadArrival));
    assert_eq!(make(Some((5, 0)), Some((4, 0))), Some(MalformedJourney::ArrivalBeforeDeparture));
    assert_eq!(make(Some((5, 1)), Some((5, 0))), Some(MalformedJourney::ArrivalBeforeDeparture));
    assert_eq!(make(Some((5, 0)), Some((5, 0))), None);
}

#[test]
fn new_journey_keeps_what_it_is_given() {
    let departure = ferry_connections::Instant::from_unix(100, 7).unwrap();
    let arrival = ferry_connections::Instant::from_unix(200, 9).unwrap();
    let journey =
        Journey::new("N".to_string(), "O".to_string(), "D".to_string(), departure, arrival)
            .unwrap();
    assert_eq!(journey.name(), "N");
    assert_eq!(journey.origin(), "O");
    assert_eq!(journey.destination(), "D");
    assert_eq!(journey.departure(), departure);
    assert_eq!(journey.arrival(), arrival);
    let refused =
        Journey::new("N".to_string(), "O".to_string(), "D".to_string(), arrival, departure);
    assert_eq!(refused.err(), Some(MalformedJourney::ArrivalBeforeDeparture));
}

#[test]
fn malformed_journey_messages() {
    assert_eq!(MalformedJourney::NoLegs.message(), "Journey without legs");
    assert_eq!(MalformedJourney::MissingDeparture.message(), "Journey without departure time");
    assert_eq!(MalformedJourney::MissingArrival.message(), "Journey without arrival time");
    assert_eq!(
        MalformedJourney::BadDeparture.message(),
        "Journey with unreadable departure time"
    );
    assert_eq!(MalformedJourney::BadArrival.message(), "Journey with unreadable arrival time");
    assert_eq!(
        MalformedJourney::ArrivalBeforeDeparture.message(),
        "Journey that arrives before it departs"
    );
}
