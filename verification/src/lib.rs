//! Matches bus journeys to a recurring daily ferry schedule: for each ferry departure, the
//! buses whose passengers can reach it, with the earliest reachable ferry marked per bus.
//!
//! A ferry leaves at fixed minutes of every hour. A bus can reach a ferry that leaves at or
//! after the bus's departure and at least the minimum travel time before the bus's arrival;
//! a ferry's clock time is always taken on the UTC date of the bus's departure.

pub mod assembler;
pub mod clock;
pub mod journey;
pub mod matcher;
pub mod schedule;
pub mod stops;

pub use assembler::{assemble, connections, fetch_ferries, read_journeys};
pub use assembler::{Ferry, FetchError, JourneysReply};
pub use clock::Instant;
pub use journey::{Journey, JourneyRecord, Leg, MalformedJourney};
pub use matcher::{earliest_feasible, is_feasible, match_all, match_journey};
pub use matcher::{Assignment, BusAssignment};
pub use schedule::{ferry_schedule, ConfigError, FerryDeparture, MatchConfig};
pub use stops::{journeys_url, locations_url, stop_id, Location};
