//! The recurring daily ferry schedule and the settings it is generated from.

use crate::clock::{clock_label, digit_char};
use vstd::prelude::*;
use vstd::string::*;

verus! {

/// One departure of the daily schedule: a clock time without a date.
#[derive(Clone, Copy, Debug, PartialEq, Eq, Structural)]
pub struct FerryDeparture {
    pub hour: u32,
    pub minute: u32,
}

impl FerryDeparture {
    /// The hour is below 24 and the minute below 60.
    pub open spec fn wf(&self) -> bool {
        self.hour < 24 && self.minute < 60
    }

    /// Minutes since midnight: the chronological position of the departure within a day.
    pub open spec fn minute_of_day(&self) -> int {
        60 * self.hour + self.minute
    }

    /// Minutes since midnight.
    pub fn minutes_since_midnight(&self) -> (r: u32)
        requires
            self.wf(),
        ensures
            r == self.minute_of_day(),
    {
        60 * self.hour + self.minute
    }

    /// The departure written as `HH:MM`.
    pub fn label(&self) -> (r: String)
        requires
            self.wf(),
        ensures
            r@ == clock_label(self.hour as int, self.minute as int),
    {
        let mut text: String = String::from_str(digit_text(self.hour / 10));
        text.append(digit_text(self.hour % 10));
        text.append(":");
        text.append(digit_text(self.minute / 10));
        text.append(digit_text(self.minute % 10));
        proof {
            reveal_strlit(":");
            assert(text@ =~= clock_label(self.hour as int, self.minute as int));
        }
        text
    }
}

/// The one-character text of a decimal digit.
fn digit_text(d: u32) -> (r: &'static str)
    requires
        d < 10,
    ensures
        r@ == seq![digit_char(d as int)],
{
    proof {
        reveal_strlit("0");
        reveal_strlit("1");
        reveal_strlit("2");
        reveal_strlit("3");
        reveal_strlit("4");
        reveal_strlit("5");
        reveal_strlit("6");
        reveal_strlit("7");
        reveal_strlit("8");
        reveal_strlit("9");
    }
    let text: &'static str = if d == 0 {
        "0"
    } else if d == 1 {
        "1"
    } else if d == 2 {
        "2"
    } else if d == 3 {
        "3"
    } else if d == 4 {
        "4"
    } else if d == 5 {
        "5"
    } else if d == 6 {
        "6"
    } else if d == 7 {
        "7"
    } else if d == 8 {
        "8"
    } else {
        "9"
    };
    assert(text@ =~= seq![digit_char(d as int)]);
    text
}

/// Why a configuration is refused.
#[derive(Clone, Copy, Debug, PartialEq, Eq, Structural)]
pub enum ConfigError {
    /// No minute offset was given, so no ferry would ever leave.
    EmptyFerryMinutes,
    /// A minute offset is 60 or more.
    MinuteOutOfRange,
    /// The minimum travel time is negative.
    NegativeMinTravel,
}

/// The settings of a matching run: at which minutes of every hour a ferry leaves, and how many
/// minutes a passenger needs between the ferry's departure and the bus's arrival.
#[derive(Debug)]
pub struct MatchConfig {
    ferry_minutes: Vec<u32>,
    min_travel_minutes: i64,
}

/// The minutes of the hour at which a ferry leaves, unless configured otherwise.
pub open spec fn default_ferry_minutes() -> Seq<u32> {
    seq![5u32, 20u32, 35u32, 50u32]
}

/// The minimum travel time in minutes, unless configured otherwise.
pub const DEFAULT_MIN_TRAVEL_MINUTES: i64 = 10;

/// Whether `minutes` are minute offsets in ascending order without repeats.
pub open spec fn ascending_minutes(minutes: Seq<u32>) -> bool {
    &&& forall|i: int| 0 <= i < minutes.len() ==> #[trigger] minutes[i] < 60
    &&& forall|i: int, j: int| 0 <= i < j < minutes.len() ==> minutes[i] < minutes[j]
}

/// The schedule of one day: for each hour from 0 to 23, one departure at each of `minutes`.
pub open spec fn schedule_of(minutes: Seq<u32>) -> Seq<FerryDeparture> {
    Seq::new(
        24 * minutes.len(),
        |i: int|
            FerryDeparture {
                hour: (i / minutes.len() as int) as u32,
                minute: minutes[i % minutes.len() as int],
            },
    )
}

/// The standard schedule: 96 departures, at :05, :20, :35 and :50 of every hour.
pub open spec fn daily_schedule() -> Seq<FerryDeparture> {
    schedule_of(default_ferry_minutes())
}

/// Whether every departure is a clock time and each is later in the day than the one before.
pub open spec fn chronological(schedule: Seq<FerryDeparture>) -> bool {
    &&& forall|i: int| 0 <= i < schedule.len() ==> (#[trigger] schedule[i]).wf()
    &&& forall|i: int, j: int|
        0 <= i < j < schedule.len() ==> (#[trigger] schedule[i]).minute_of_day() < (
        #[trigger] schedule[j]).minute_of_day()
}

impl MatchConfig {
    /// The minute offsets, ascending.
    pub closed spec fn ferry_minutes(&self) -> Seq<u32> {
        self.ferry_minutes@
    }

    /// The minimum travel time in minutes.
    pub closed spec fn min_travel_minutes(&self) -> int {
        self.min_travel_minutes as int
    }

    /// There is at least one minute offset, the offsets ascend, and the travel time is not
    /// negative.
    pub open spec fn wf(&self) -> bool {
        &&& self.ferry_minutes().len() > 0
        &&& ascending_minutes(self.ferry_minutes())
        &&& self.min_travel_minutes() >= 0
    }

    /// A configuration with the given set of minute offsets and minimum travel time.
    ///
    /// The offsets may come in any order and with repeats. Refused, in this order of
    /// precedence: an empty set, an offset of 60 or more, a negative travel time.
    pub fn new(ferry_minutes: &Vec<u32>, min_travel_minutes: i64) -> (r: Result<
        MatchConfig,
        ConfigError,
    >)
        ensures
            r == Err::<MatchConfig, ConfigError>(ConfigError::EmptyFerryMinutes)
                <==> ferry_minutes@.len() == 0,
            r == Err::<MatchConfig, ConfigError>(ConfigError::MinuteOutOfRange) <==> (
            ferry_minutes@.len() > 0 && exists|i: int|
                0 <= i < ferry_minutes@.len() && #[trigger] ferry_minutes@[i] >= 60),
            r == Err::<MatchConfig, ConfigError>(ConfigError::NegativeMinTravel) <==> (
            ferry_minutes@.len() > 0 && min_travel_minutes < 0 && forall|i: int|
                0 <= i < ferry_minutes@.len() ==> #[trigger] ferry_minutes@[i] < 60),
            r matches Ok(c) ==> {
                &&& c.wf()
                &&& c.min_travel_minutes() == min_travel_minutes
                &&& forall|m: u32| c.ferry_minutes().contains(m) <==> ferry_minutes@.contains(m)
            },
    {
        if ferry_minutes.len() == 0 {
            return Err(ConfigError::EmptyFerryMinutes);
        }
        let mut k: usize = 0;
        while k < ferry_minutes.len()
            invariant
                k <= ferry_minutes@.len(),
                forall|i: int| 0 <= i < k ==> #[trigger] ferry_minutes@[i] < 60,
            decreases ferry_minutes@.len() - k,
        {
            if ferry_minutes[k] >= 60 {
                return Err(ConfigError::MinuteOutOfRange);
            }
            k += 1;
        }
        if min_travel_minutes < 0 {
            return Err(ConfigError::NegativeMinTravel);
        }
        let mut ascending: Vec<u32> = Vec::new();
        let mut minute: u32 = 0;
        while minute < 60
            invariant
                minute <= 60,
                forall|i: int| 0 <= i < ascending@.len() ==> #[trigger] ascending@[i] < minute,
                forall|i: int, j: int|
                    0 <= i < j < ascending@.len() ==> ascending@[i] < ascending@[j],
                forall|m: u32|
                    ascending@.contains(m) <==> (m < minute && ferry_minutes@.contains(m)),
            decreases 60 - minute,
        {
            if occurs(ferry_minutes, minute) {
                let ghost before = ascending@;
                ascending.push(minute);
                assert forall|m: u32|
                    ascending@.contains(m) <==> (m < minute + 1 && ferry_minutes@.contains(
                        m,
                    )) by {
                    if ascending@.contains(m) {
                        let i = choose|i: int| 0 <= i < ascending@.len() && ascending@[i] == m;
                        if i < before.len() {
                            assert(before[i] == m);
                            assert(before.contains(m));
                        }
                    }
                    if m < minute + 1 && ferry_minutes@.contains(m) {
                        if m < minute {
                            assert(before.contains(m));
                            let i = choose|i: int| 0 <= i < before.len() && before[i] == m;
                            assert(ascending@[i] == m);
                        } else {
                            assert(ascending@[before.len() as int] == m);
                        }
                    }
                }
            }
            minute += 1;
        }
        proof {
            let first = ferry_minutes@[0];
            assert(ferry_minutes@.contains(first));
            assert(ascending@.contains(first));
        }
        Ok(MatchConfig { ferry_minutes: ascending, min_travel_minutes })
    }

    /// The minimum travel time in minutes.
    pub fn min_travel(&self) -> (r: i64)
        ensures
            r == self.min_travel_minutes(),
    {
        self.min_travel_minutes
    }

    /// The minute offsets, ascending.
    pub fn minutes(&self) -> (r: &Vec<u32>)
        ensures
            r@ == self.ferry_minutes(),
    {
        &self.ferry_minutes
    }

    /// The schedule of one day under this configuration, in chronological order.
    pub fn schedule(&self) -> (r: Vec<FerryDeparture>)
        requires
            self.wf(),
        ensures
            r@ == schedule_of(self.ferry_minutes()),
            chronological(r@),
    {
        let width: usize = self.ferry_minutes.len();
        let mut departures: Vec<FerryDeparture> = Vec::new();
        let mut hour: u32 = 0;
        while hour < 24
            invariant
                hour <= 24,
                width == self.ferry_minutes@.len(),
                width > 0,
                ascending_minutes(self.ferry_minutes@),
                departures@.len() == hour * width,
                forall|i: int|
                    0 <= i < departures@.len() ==> #[trigger] departures@[i] == schedule_of(
                        self.ferry_minutes@,
                    )[i],
            decreases 24 - hour,
        {
            let mut k: usize = 0;
            while k < width
                invariant
                    hour < 24,
                    k <= width,
                    width == self.ferry_minutes@.len(),
                    width > 0,
                    ascending_minutes(self.ferry_minutes@),
                    departures@.len() == hour * width + k,
                    forall|i: int|
                        0 <= i < departures@.len() ==> #[trigger] departures@[i] == schedule_of(
                            self.ferry_minutes@,
                        )[i],
                decreases width - k,
            {
                proof {
                    lemma_row_and_column(hour as int, k as int, width as int);
                    assert((hour + 1) * width <= 24 * width) by (nonlinear_arith)
                        requires
                            hour < 24,
                            width > 0,
                    ;
                }
                let ghost before = departures@;
                departures.push(FerryDeparture { hour, minute: self.ferry_minutes[k] });
                assert forall|i: int| 0 <= i < departures@.len() implies #[trigger] departures@[i]
                    == schedule_of(self.ferry_minutes@)[i] by {
                    if i < before.len() {
                        assert(departures@[i] == before[i]);
                    }
                }
                k += 1;
            }
            assert(hour * width + width == (hour + 1) * width) by (nonlinear_arith);
            hour += 1;
        }
        proof {
            assert(departures@ =~= schedule_of(self.ferry_minutes@));
            lemma_schedule_is_chronological(self.ferry_minutes@);
        }
        departures
    }
}

impl Default for MatchConfig {
    /// Ferries at :05, :20, :35 and :50; ten minutes of travel time.
    fn default() -> (r: MatchConfig)
        ensures
            r.wf(),
            r.ferry_minutes() == default_ferry_minutes(),
            r.min_travel_minutes() == DEFAULT_MIN_TRAVEL_MINUTES,
    {
        let mut ferry_minutes: Vec<u32> = Vec::new();
        ferry_minutes.push(5);
        ferry_minutes.push(20);
        ferry_minutes.push(35);
        ferry_minutes.push(50);
        assert(ferry_minutes@ =~= default_ferry_minutes());
        MatchConfig { ferry_minutes, min_travel_minutes: DEFAULT_MIN_TRAVEL_MINUTES }
    }
}

/// Whether `wanted` is one of `minutes`.
fn occurs(minutes: &Vec<u32>, wanted: u32) -> (r: bool)
    ensures
        r == minutes@.contains(wanted),
{
    let mut k: usize = 0;
    while k < minutes.len()
        invariant
            k <= minutes@.len(),
            forall|i: int| 0 <= i < k ==> minutes@[i] != wanted,
        decreases minutes@.len() - k,
    {
        if minutes[k] == wanted {
            return true;
        }
        k += 1;
    }
    false
}

/// The standard schedule of one day: 96 departures from 00:05 to 23:50.
pub fn ferry_schedule() -> (r: Vec<FerryDeparture>)
    ensures
        r@ == daily_schedule(),
        r@.len() == 96,
        chronological(r@),
        r@[0] == (FerryDeparture { hour: 0, minute: 5 }),
        r@[95] == (FerryDeparture { hour: 23, minute: 50 }),
{
    let config = MatchConfig::default();
    let departures = config.schedule();
    proof {
        lemma_daily_schedule();
    }
    departures
}

/// Position `row * width + column` of a table lies in row `row` and column `column`.
proof fn lemma_row_and_column(row: int, column: int, width: int)
    requires
        0 <= row,
        0 <= column < width,
    ensures
        (row * width + column) / width == row,
        (row * width + column) % width == column,
        0 <= row * width + column < (row + 1) * width,
{
    vstd::arithmetic::div_mod::lemma_fundamental_div_mod_converse(
        row * width + column,
        width,
        row,
        column,
    );
    assert(row * width + column < (row + 1) * width) by (nonlinear_arith)
        requires
            column < width,
    ;
    assert(0 <= row * width) by (nonlinear_arith)
        requires
            0 <= row,
            0 < width,
    ;
}

/// A schedule generated from ascending minute offsets is in chronological order: every entry
/// is a clock time, and each is later in the day than the one before.
pub proof fn lemma_schedule_is_chronological(minutes: Seq<u32>)
    requires
        minutes.len() > 0,
        ascending_minutes(minutes),
    ensures
        schedule_of(minutes).len() == 24 * minutes.len(),
        chronological(schedule_of(minutes)),
{
    let schedule = schedule_of(minutes);
    let width = minutes.len() as int;
    assert forall|i: int| 0 <= i < schedule.len() implies (#[trigger] schedule[i]).wf() by {
        lemma_cell(i, width);
    }
    assert forall|i: int, j: int| 0 <= i < j < schedule.len() implies (
    #[trigger] schedule[i]).minute_of_day() < (#[trigger] schedule[j]).minute_of_day() by {
        lemma_cell(i, width);
        lemma_cell(j, width);
        if i / width == j / width {
            assert(i % width < j % width);
        } else {
            assert(i / width < j / width) by {
                vstd::arithmetic::div_mod::lemma_div_is_ordered(i, j, width);
            }
        }
    }
}

/// Row and column of position `i` in a table of 24 rows.
proof fn lemma_cell(i: int, width: int)
    requires
        0 < width,
        0 <= i < 24 * width,
    ensures
        0 <= i / width < 24,
        0 <= i % width < width,
        i == (i / width) * width + i % width,
{
    vstd::arithmetic::div_mod::lemma_fundamental_div_mod(i, width);
    vstd::arithmetic::div_mod::lemma_mod_bound(i, width);
    let q = i / width;
    assert(q * width == width * q) by (nonlinear_arith);
    assert(0 <= q < 24) by (nonlinear_arith)
        requires
            0 < width,
            0 <= i < 24 * width,
            i == width * q + i % width,
            0 <= i % width < width,
    ;
}

/// The standard schedule has exactly 96 departures, each later than the one before, the
/// first at 00:05 and the last at 23:50.
pub proof fn lemma_daily_schedule()
    ensures
        daily_schedule().len() == 96,
        chronological(daily_schedule()),
        daily_schedule()[0] == (FerryDeparture { hour: 0, minute: 5 }),
        daily_schedule()[95] == (FerryDeparture { hour: 23, minute: 50 }),
        forall|i: int|
            0 <= i < 96 ==> #[trigger] daily_schedule()[i] == (FerryDeparture {
                hour: (i / 4) as u32,
                minute: (5 + 15 * (i % 4)) as u32,
            }),
{
    let minutes = default_ferry_minutes();
    assert(minutes.len() == 4);
    assert(ascending_minutes(minutes));
    lemma_schedule_is_chronological(minutes);
    assert forall|i: int| 0 <= i < 96 implies #[trigger] daily_schedule()[i] == (FerryDeparture {
        hour: (i / 4) as u32,
        minute: (5 + 15 * (i % 4)) as u32,
    }) by {
        let c = i % 4;
        assert(c == 0 || c == 1 || c == 2 || c == 3);
        assert(minutes[c] == 5 + 15 * c);
    }
}

} // verus!
