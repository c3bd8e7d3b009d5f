//! Bus journeys: the records a journey planner hands over, and the validated journeys that
//! the matcher works on.

use crate::clock::{not_after, read_rfc3339, rfc3339_reading, valid_unix, Instant};
use vstd::prelude::*;
use vstd::string::*;

verus! {

/// One segment of a planned journey, as the journey planner reports it. Any field may
/// be missing.
#[derive(Debug)]
pub struct Leg {
    /// Name of the line that serves the leg.
    pub line_name: Option<String>,
    /// Mode of transport of the leg.
    pub mode: Option<String>,
    /// Name of the stop where the leg begins.
    pub origin_name: Option<String>,
    /// Name of the stop where the leg ends.
    pub destination_name: Option<String>,
    /// RFC 3339 timestamp of the departure.
    pub departure: Option<String>,
    /// RFC 3339 timestamp of the arrival.
    pub arrival: Option<String>,
}

/// One planned journey: its legs in travel order.
#[derive(Debug)]
pub struct JourneyRecord {
    pub legs: Vec<Leg>,
}

/// Why a journey record is refused.
#[derive(Clone, Copy, Debug, PartialEq, Eq, Structural)]
pub enum MalformedJourney {
    /// The record has no legs.
    NoLegs,
    /// The first leg has no departure timestamp.
    MissingDeparture,
    /// The last leg has no arrival timestamp.
    MissingArrival,
    /// The departure is no RFC 3339 timestamp, or lies outside the supported span of time.
    BadDeparture,
    /// The arrival is no RFC 3339 timestamp, or lies outside the supported span of time.
    BadArrival,
    /// The journey arrives before it departs.
    ArrivalBeforeDeparture,
}

/// What to tell a reader about a refused journey.
pub open spec fn malformed_text(reason: MalformedJourney) -> Seq<char> {
    match reason {
        MalformedJourney::NoLegs => "Journey without legs"@,
        MalformedJourney::MissingDeparture => "Journey without departure time"@,
        MalformedJourney::MissingArrival => "Journey without arrival time"@,
        MalformedJourney::BadDeparture => "Journey with unreadable departure time"@,
        MalformedJourney::BadArrival => "Journey with unreadable arrival time"@,
        MalformedJourney::ArrivalBeforeDeparture => "Journey that arrives before it departs"@,
    }
}

impl MalformedJourney {
    /// The reason in words.
    pub fn message(&self) -> (r: &'static str)
        ensures
            r@ == malformed_text(*self),
    {
        match self {
            MalformedJourney::NoLegs => "Journey without legs",
            MalformedJourney::MissingDeparture => "Journey without departure time",
            MalformedJourney::MissingArrival => "Journey without arrival time",
            MalformedJourney::BadDeparture => "Journey with unreadable departure time",
            MalformedJourney::BadArrival => "Journey with unreadable arrival time",
            MalformedJourney::ArrivalBeforeDeparture => "Journey that arrives before it departs",
        }
    }
}

/// A bus trip that the matcher can place: what it is called, where it runs, and when.
#[derive(Debug)]
pub struct Journey {
    name: String,
    origin: String,
    destination: String,
    departure: Instant,
    arrival: Instant,
}

/// The mathematical content of a [`Journey`]. Instants are `(seconds, nanoseconds)` pairs.
pub struct JourneyView {
    pub name: Seq<char>,
    pub origin: Seq<char>,
    pub destination: Seq<char>,
    pub departure: (int, int),
    pub arrival: (int, int),
}

impl JourneyView {
    /// Both instants are valid and the arrival is not before the departure.
    pub open spec fn wf(self) -> bool {
        &&& valid_unix(self.departure.0, self.departure.1)
        &&& valid_unix(self.arrival.0, self.arrival.1)
        &&& not_after(self.departure, self.arrival)
    }
}

impl View for Journey {
    type V = JourneyView;

    closed spec fn view(&self) -> JourneyView {
        JourneyView {
            name: self.name@,
            origin: self.origin@,
            destination: self.destination@,
            departure: self.departure@,
            arrival: self.arrival@,
        }
    }
}

/// The text of a field, or the empty text where the field is missing.
pub open spec fn text_or_empty(field: Option<String>) -> Seq<char> {
    match field {
        Some(text) => text@,
        None => Seq::<char>::empty(),
    }
}

/// The name a bus goes by: its line's name, else its mode of transport, else `Bus`.
pub open spec fn bus_name_of(leg: Leg) -> Seq<char> {
    match leg.line_name {
        Some(name) => name@,
        None => match leg.mode {
            Some(mode) => mode@,
            None => "Bus"@,
        },
    }
}

/// The journey with the given texts whose departure and arrival were read as `departure` and
/// `arrival`, or the reason why there is none. A reading is the pair of seconds and
/// nanoseconds of a timestamp, or `None` where the text was no timestamp.
pub open spec fn journey_of_readings(
    name: Seq<char>,
    origin: Seq<char>,
    destination: Seq<char>,
    departure: Option<(i64, u32)>,
    arrival: Option<(i64, u32)>,
) -> Result<JourneyView, MalformedJourney> {
    if !(departure matches Some(d) && valid_unix(d.0 as int, d.1 as int)) {
        Err(MalformedJourney::BadDeparture)
    } else if !(arrival matches Some(a) && valid_unix(a.0 as int, a.1 as int)) {
        Err(MalformedJourney::BadArrival)
    } else {
        let d = departure->0;
        let a = arrival->0;
        if !not_after((d.0 as int, d.1 as int), (a.0 as int, a.1 as int)) {
            Err(MalformedJourney::ArrivalBeforeDeparture)
        } else {
            Ok(
                JourneyView {
                    name,
                    origin,
                    destination,
                    departure: (d.0 as int, d.1 as int),
                    arrival: (a.0 as int, a.1 as int),
                },
            )
        }
    }
}

/// The journey that a record with these legs describes, or the reason why it is refused.
///
/// Only the first and the last leg count: the first gives the bus's name, the origin and the
/// departure, the last gives the destination and the arrival.
pub open spec fn journey_of_legs(legs: Seq<Leg>) -> Result<JourneyView, MalformedJourney> {
    if legs.len() == 0 {
        Err(MalformedJourney::NoLegs)
    } else if legs.first().departure is None {
        Err(MalformedJourney::MissingDeparture)
    } else if legs.last().arrival is None {
        Err(MalformedJourney::MissingArrival)
    } else {
        journey_of_readings(
            bus_name_of(legs.first()),
            text_or_empty(legs.first().origin_name),
            text_or_empty(legs.last().destination_name),
            rfc3339_reading(legs.first().departure->0@),
            rfc3339_reading(legs.last().arrival->0@),
        )
    }
}

/// Whether `result` is `expected`, comparing a journey by its view.
pub open spec fn journey_result_is(
    result: Result<Journey, MalformedJourney>,
    expected: Result<JourneyView, MalformedJourney>,
) -> bool {
    match result {
        Ok(journey) => expected == Ok::<JourneyView, MalformedJourney>(journey@) && journey.wf(),
        Err(reason) => expected == Err::<JourneyView, MalformedJourney>(reason),
    }
}

impl Journey {
    /// Both instants are valid and the arrival is not before the departure.
    pub open spec fn wf(&self) -> bool {
        self@.wf()
    }

    /// A journey of the bus `name` from `origin` to `destination`.
    ///
    /// Refused where the arrival is before the departure.
    pub fn new(
        name: String,
        origin: String,
        destination: String,
        departure: Instant,
        arrival: Instant,
    ) -> (r: Result<Journey, MalformedJourney>)
        requires
            departure.wf(),
            arrival.wf(),
        ensures
            r is Ok <==> not_after(departure@, arrival@),
            r matches Ok(journey) ==> journey.wf() && journey@ == (JourneyView {
                name: name@,
                origin: origin@,
                destination: destination@,
                departure: departure@,
                arrival: arrival@,
            }),
            r matches Err(reason) ==> reason == MalformedJourney::ArrivalBeforeDeparture,
    {
        if departure.is_not_after(&arrival) {
            Ok(Journey { name, origin, destination, departure, arrival })
        } else {
            Err(MalformedJourney::ArrivalBeforeDeparture)
        }
    }

    /// A journey from texts and from what was read of its two timestamps.
    ///
    /// Refused, in this order of precedence: a departure that was not read or is not a valid
    /// instant, such an arrival, an arrival before the departure.
    pub fn from_readings(
        name: String,
        origin: String,
        destination: String,
        departure: Option<(i64, u32)>,
        arrival: Option<(i64, u32)>,
    ) -> (r: Result<Journey, MalformedJourney>)
        ensures
            journey_result_is(
                r,
                journey_of_readings(name@, origin@, destination@, departure, arrival),
            ),
    {
        let departure: Instant = match departure {
            Some((secs, nanos)) => match Instant::from_unix(secs, nanos) {
                Some(instant) => instant,
                None => { return Err(MalformedJourney::BadDeparture); },
            },
            None => { return Err(MalformedJourney::BadDeparture); },
        };
        let arrival: Instant = match arrival {
            Some((secs, nanos)) => match Instant::from_unix(secs, nanos) {
                Some(instant) => instant,
                None => { return Err(MalformedJourney::BadArrival); },
            },
            None => { return Err(MalformedJourney::BadArrival); },
        };
        Journey::new(name, origin, destination, departure, arrival)
    }

    /// The journey that a planner's record describes.
    ///
    /// Refused, in this order of precedence: a record without legs, a first leg without
    /// departure, a last leg without arrival, and what [`Journey::from_readings`] refuses.
    /// Legs between the first and the last are not looked at.
    pub fn from_record(record: &JourneyRecord) -> (r: Result<Journey, MalformedJourney>)
        ensures
            journey_result_is(r, journey_of_legs(record.legs@)),
    {
        if record.legs.len() == 0 {
            return Err(MalformedJourney::NoLegs);
        }
        let first: &Leg = &record.legs[0];
        let last: &Leg = &record.legs[record.legs.len() - 1];
        let name: String = match &first.line_name {
            Some(name) => name.clone(),
            None => match &first.mode {
                Some(mode) => mode.clone(),
                None => String::from_str("Bus"),
            },
        };
        let departure = match &first.departure {
            Some(text) => read_rfc3339(text.as_str()),
            None => { return Err(MalformedJourney::MissingDeparture); },
        };
        let arrival = match &last.arrival {
            Some(text) => read_rfc3339(text.as_str()),
            None => { return Err(MalformedJourney::MissingArrival); },
        };
        let origin: String = match &first.origin_name {
            Some(text) => text.clone(),
            None => String::new(),
        };
        let destination: String = match &last.destination_name {
            Some(text) => text.clone(),
            None => String::new(),
        };
        Journey::from_readings(name, origin, destination, departure, arrival)
    }

    /// The name the bus goes by.
    pub fn name(&self) -> (r: &String)
        ensures
            r@ == self@.name,
    {
        &self.name
    }

    /// Where the journey begins.
    pub fn origin(&self) -> (r: &String)
        ensures
            r@ == self@.origin,
    {
        &self.origin
    }

    /// Where the journey ends.
    pub fn destination(&self) -> (r: &String)
        ensures
            r@ == self@.destination,
    {
        &self.destination
    }

    /// When the bus leaves its origin.
    pub fn departure(&self) -> (r: Instant)
        ensures
            r@ == self@.departure,
    {
        self.departure
    }

    /// When the bus reaches its destination.
    pub fn arrival(&self) -> (r: Instant)
        ensures
            r@ == self@.arrival,
    {
        self.arrival
    }
}

} // verus!
