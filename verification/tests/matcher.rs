use ferry_connections::{
    earliest_feasible, ferry_schedule, is_feasible, match_all, match_journey, FerryDeparture,
    Instant, Journey,
};

const MAY_FIRST: i64 = 1_714_521_600;

fn at(hour: i64, minute: i64) -> Instant {
    Instant::from_unix(MAY_FIRST + hour * 3600 + minute * 60, 0).unwrap()
}

fn bus(name: &str, departure: Instant, arrival: Instant) -> Journey {
    Journey::new(name.to_string(), "Here".to_string(), "There".to_string(), departure, arrival)
        .unwrap()
}

fn ferry(hour: u32, minute: u32) -> FerryDeparture {
    FerryDeparture { hour, minute }
}

#[test]
fn ferry_at_the_instant_of_departure_is_feasible() {
    let journey = bus("A", at(8, 5), at(9, 0));
    assert!(is_feasible(&journey, ferry(8, 5), 10));
}

#[test]
fn ferry_one_minute_before_departure_is_infeasible() {
    let journey = bus("A", at(8, 6), at(9, 0));
    assert!(!is_feasible(&journey, ferry(8, 5), 10));
}

#[test]
fn ferry_a_nanosecond_before_departure_is_infeasible() {
    let departure = Instant::from_unix(MAY_FIRST + 8 * 3600 + 5 * 60, 1).unwrap();
    let journey = bus("A", departure, at(9, 0));
    assert!(!is_feasible(&journey, ferry(8, 5), 10));
    assert!(is_feasible(&journey, ferry(8, 20), 10));
}

#[test]
fn ferry_exactly_the_travel_time_before_arrival_is_feasible() {
    let journey = bus("A", at(8, 0), at(9, 0));
    assert!(is_feasible(&journey, ferry(8, 50), 10));
}

#[test]
fn arrival_one_minute_short_is_infeasible() {
    let journey = bus("A", at(8, 0), at(8, 59));
    assert!(!is_feasible(&journey, ferry(8, 50), 10));
    let second_short = Instant::from_unix(MAY_FIRST + 9 * 3600 - 1, 999_999_999).unwrap();
    let journey = bus("A", at(8, 0), second_short);
    assert!(!is_feasible(&journey, ferry(8, 50), 10));
}

#[test]
fn travel_time_is_counted_in_minutes() {
    let journey = bus("A", at(8, 0), at(9, 0));
    assert!(is_feasible(&journey, ferry(8, 50), 0));
    assert!(is_feasible(&journey, ferry(9, 0), 0));
    assert!(!is_feasible(&journey, ferry(9, 1), 0));
    assert!(is_feasible(&journey, ferry(8, 0), 60));
    assert!(!is_feasible(&journey, ferry(8, 0), 61));
    assert!(!is_feasible(&journey, ferry(8, 0), i64::MAX));
    assert!(is_feasible(&journey, ferry(9, 30), -30));
    assert!(is_feasible(&journey, ferry(23, 59), i64::MIN));
}

#[test]
fn hour_long_journey_reaches_four_ferries() {
    let journey = bus("Bus 1", at(8, 0), at(9, 0));
    let schedule = ferry_schedule();
    let found = match_journey(&journey, &schedule, 10);
    let positions: Vec<usize> = found.iter().map(|a| a.ferry).collect();
    assert_eq!(positions, vec![32, 33, 34, 35]);
    let labels: Vec<String> = positions.iter().map(|p| schedule[*p].label()).collect();
    assert_eq!(labels, vec!["08:05", "08:20", "08:35", "08:50"]);
    let marks: Vec<bool> = found.iter().map(|a| a.bus.first_possible).collect();
    assert_eq!(marks, vec![true, false, false, false]);
    for a in &found {
        assert_eq!(a.bus.name, "Bus 1");
        assert_eq!(a.bus.origin, "Here");
        assert_eq!(a.bus.destination, "There");
        assert_eq!(a.bus.dep, "08:00");
        assert_eq!(a.bus.arr, "09:00");
    }
    assert_eq!(earliest_feasible(&journey, &schedule, 10), Some(32));
}

#[test]
fn short_journey_reaches_no_ferry() {
    let journey = bus("Bus 2", at(8, 56), at(9, 10));
    let schedule = ferry_schedule();
    assert!(!is_feasible(&journey, ferry(9, 5), 10));
    assert!(match_journey(&journey, &schedule, 10).is_empty());
    assert_eq!(earliest_feasible(&journey, &schedule, 10), None);
}

#[test]
fn exactly_one_assignment_is_marked() {
    let schedule = ferry_schedule();
    for start in 0..(24 * 4) {
        let departure = Instant::from_unix(MAY_FIRST + start * 900, 0).unwrap();
        let arrival = Instant::from_unix(MAY_FIRST + start * 900 + 2700, 0).unwrap();
        let journey = bus("Bus", departure, arrival);
        let found = match_journey(&journey, &schedule, 10);
        let marked: Vec<usize> =
            found.iter().filter(|a| a.bus.first_possible).map(|a| a.ferry).collect();
        if found.is_empty() {
            assert!(marked.is_empty());
        } else {
            assert_eq!(marked.len(), 1);
            assert_eq!(marked[0], found[0].ferry);
            assert_eq!(Some(marked[0]), earliest_feasible(&journey, &schedule, 10));
        }
        for a in &found {
            assert!(is_feasible(&journey, schedule[a.ferry], 10));
        }
        let reachable = (0..schedule.len()).filter(|p| is_feasible(&journey, schedule[*p], 10));
        assert_eq!(reachable.count(), found.len());
    }
}

#[test]
fn journey_over_midnight_is_matched_on_its_departure_date() {
    let departure = at(23, 40);
    let arrival = Instant::from_unix(MAY_FIRST + 86_400 + 30 * 60, 0).unwrap();
    let journey = bus("Night", departure, arrival);
    let schedule = ferry_schedule();
    let found = match_journey(&journey, &schedule, 10);
    assert_eq!(found.len(), 1);
    assert_eq!(found[0].ferry, 95);
    assert!(found[0].bus.first_possible);
    assert_eq!(found[0].bus.dep, "23:40");
    assert_eq!(found[0].bus.arr, "00:30");
    assert!(!is_feasible(&journey, ferry(0, 5), 10));
}

#[test]
fn earliest_is_found_by_clock_time_in_any_order() {
    let journey = bus("Bus", at(8, 0), at(9, 0));
    let schedule = vec![ferry(8, 35), ferry(7, 50), ferry(8, 20), ferry(8, 5), ferry(8, 5)];
    assert_eq!(earliest_feasible(&journey, &schedule, 10), Some(3));
    let found = match_journey(&journey, &schedule, 10);
    let positions: Vec<usize> = found.iter().map(|a| a.ferry).collect();
    assert_eq!(positions, vec![0, 2, 3, 4]);
    let marks: Vec<bool> = found.iter().map(|a| a.bus.first_possible).collect();
    assert_eq!(marks, vec![false, false, true, false]);
}

#[test]
fn empty_schedule_gives_no_assignment() {
    let journey = bus("Bus", at(8, 0), at(9, 0));
    assert!(match_journey(&journey, &vec![], 10).is_empty());
    assert_eq!(earliest_feasible(&journey, &vec![], 10), None);
}

#[test]
fn assignments_come_journey_by_journey() {
    let journeys = vec![
        bus("First", at(12, 0), at(12, 30)),
        bus("None", at(8, 56), at(9, 10)),
        bus("Second", at(11, 40), at(12, 20)),
    ];
    let schedule = ferry_schedule();
    let found = match_all(&journeys, &schedule, 10);
    let seen: Vec<(String, usize, bool)> =
        found.iter().map(|a| (a.bus.name.clone(), a.ferry, a.bus.first_possible)).collect();
    assert_eq!(
        seen,
        vec![
            ("First".to_string(), 48, true),
            ("First".to_string(), 49, false),
            ("Second".to_string(), 47, true),
            ("Second".to_string(), 48, false),
        ]
    );
    assert!(match_all(&vec![], &schedule, 10).is_empty());
}
