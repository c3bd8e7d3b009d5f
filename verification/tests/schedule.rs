use ferry_connections::{ferry_schedule, ConfigError, FerryDeparture, MatchConfig};

#[test]
fn standard_schedule_has_96_departures() {
    let schedule = ferry_schedule();
    assert_eq!(schedule.len(), 96);
    assert_eq!(schedule[0], FerryDeparture { hour: 0, minute: 5 });
    assert_eq!(schedule[1], FerryDeparture { hour: 0, minute: 20 });
    assert_eq!(schedule[2], FerryDeparture { hour: 0, minute: 35 });
    assert_eq!(schedule[3], FerryDeparture { hour: 0, minute: 50 });
    assert_eq!(schedule[4], FerryDeparture { hour: 1, minute: 5 });
    assert_eq!(schedule[95], FerryDeparture { hour: 23, minute: 50 });
}

#[test]
fn standard_schedule_is_strictly_increasing() {
    let schedule = ferry_schedule();
    for i in 1..schedule.len() {
        assert!(schedule[i - 1].minutes_since_midnight() < schedule[i].minutes_since_midnight());
    }
    assert_eq!(schedule[0].minutes_since_midnight(), 5);
    assert_eq!(schedule[95].minutes_since_midnight(), 23 * 60 + 50);
}

#[test]
fn standard_schedule_holds_every_hour_and_minute() {
    let schedule = ferry_schedule();
    for hour in 0..24u32 {
        for (k, minute) in [5u32, 20, 35, 50].iter().enumerate() {
            let at = hour as usize * 4 + k;
            assert_eq!(schedule[at], FerryDeparture { hour, minute: *minute });
        }
    }
}

#[test]
fn departure_labels() {
    assert_eq!(FerryDeparture { hour: 0, minute: 5 }.label(), "00:05");
    assert_eq!(FerryDeparture { hour: 9, minute: 50 }.label(), "09:50");
    assert_eq!(FerryDeparture { hour: 12, minute: 0 }.label(), "12:00");
    assert_eq!(FerryDeparture { hour: 23, minute: 59 }.label(), "23:59");
}

#[test]
fn default_configuration() {
    let config = MatchConfig::default();
    assert_eq!(config.minutes(), &vec![5u32, 20, 35, 50]);
    assert_eq!(config.min_travel(), 10);
    assert_eq!(config.schedule(), ferry_schedule());
}

#[test]
fn configuration_sorts_and_drops_repeats() {
    let config = MatchConfig::new(&vec![40, 10, 40, 0, 10], 3).unwrap();
    assert_eq!(config.minutes(), &vec![0u32, 10, 40]);
    assert_eq!(config.min_travel(), 3);
    let schedule = config.schedule();
    assert_eq!(schedule.len(), 72);
    assert_eq!(schedule[0], FerryDeparture { hour: 0, minute: 0 });
    assert_eq!(schedule[2], FerryDeparture { hour: 0, minute: 40 });
    assert_eq!(schedule[3], FerryDeparture { hour: 1, minute: 0 });
    assert_eq!(schedule[71], FerryDeparture { hour: 23, minute: 40 });
}

#[test]
fn configuration_with_one_minute() {
    let config = MatchConfig::new(&vec![59], 0).unwrap();
    let schedule = config.schedule();
    assert_eq!(schedule.len(), 24);
    assert_eq!(schedule[23], FerryDeparture { hour: 23, minute: 59 });
}

#[test]
fn configuration_refuses_an_empty_set() {
    assert_eq!(MatchConfig::new(&vec![], 10).err(), Some(ConfigError::EmptyFerryMinutes));
    assert_eq!(MatchConfig::new(&vec![], -1).err(), Some(ConfigError::EmptyFerryMinutes));
}

#[test]
fn configuration_refuses_a_minute_of_60_or_more() {
    assert_eq!(MatchConfig::new(&vec![5, 60], 10).err(), Some(ConfigError::MinuteOutOfRange));
    assert_eq!(MatchConfig::new(&vec![u32::MAX], -1).err(), Some(ConfigError::MinuteOutOfRange));
}

#[test]
fn configuration_refuses_negative_travel_time() {
    assert_eq!(MatchConfig::new(&vec![5], -1).err(), Some(ConfigError::NegativeMinTravel));
    assert_eq!(MatchConfig::new(&vec![5], i64::MIN).err(), Some(ConfigError::NegativeMinTravel));
    assert!(MatchConfig::new(&vec![5], 0).is_ok());
    assert!(MatchConfig::new(&vec![5], i64::MAX).is_ok());
}
