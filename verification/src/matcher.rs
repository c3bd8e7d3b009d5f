//! Which ferries a bus can reach, and which of them is the earliest.

use crate::clock::{clock_label, clock_time_on_day_of, hour_of_day, minute_of_hour, not_after};
use crate::journey::{Journey, JourneyView};
use crate::schedule::{chronological, FerryDeparture};
use vstd::prelude::*;
use vstd::string::*;

verus! {

/// One bus that can reach a ferry, as listed under that ferry.
#[derive(Debug)]
pub struct BusAssignment {
    /// The name the bus goes by.
    pub name: String,
    /// Where the bus starts.
    pub origin: String,
    /// Where the bus ends.
    pub destination: String,
    /// When the bus leaves, as `HH:MM`.
    pub dep: String,
    /// When the bus arrives, as `HH:MM`.
    pub arr: String,
    /// Whether this ferry is the earliest that the bus can reach.
    pub first_possible: bool,
}

/// The mathematical content of a [`BusAssignment`].
pub struct BusAssignmentView {
    pub name: Seq<char>,
    pub origin: Seq<char>,
    pub destination: Seq<char>,
    pub dep: Seq<char>,
    pub arr: Seq<char>,
    pub first_possible: bool,
}

impl View for BusAssignment {
    type V = BusAssignmentView;

    open spec fn view(&self) -> BusAssignmentView {
        BusAssignmentView {
            name: self.name@,
            origin: self.origin@,
            destination: self.destination@,
            dep: self.dep@,
            arr: self.arr@,
            first_possible: self.first_possible,
        }
    }
}

impl Clone for BusAssignment {
    fn clone(&self) -> (r: BusAssignment)
        ensures
            r@ == self@,
    {
        BusAssignment {
            name: self.name.clone(),
            origin: self.origin.clone(),
            destination: self.destination.clone(),
            dep: self.dep.clone(),
            arr: self.arr.clone(),
            first_possible: self.first_possible,
        }
    }
}

/// A bus placed on one ferry: the position of the ferry's departure in the schedule, and the
/// entry to list under it.
#[derive(Debug)]
pub struct Assignment {
    pub ferry: usize,
    pub bus: BusAssignment,
}

/// The mathematical content of an [`Assignment`].
pub struct AssignmentView {
    pub ferry: int,
    pub bus: BusAssignmentView,
}

impl View for Assignment {
    type V = AssignmentView;

    open spec fn view(&self) -> AssignmentView {
        AssignmentView { ferry: self.ferry as int, bus: self.bus@ }
    }
}

/// The views of a list of assignments, in order.
pub open spec fn assignment_views(assignments: Seq<Assignment>) -> Seq<AssignmentView> {
    assignments.map_values(|a: Assignment| a@)
}

/// The second at which the ferry `departure` leaves on the day the bus departs.
///
/// A ferry's clock time is always put on the UTC date of the bus's departure, also for a
/// journey that arrives on a later date.
pub open spec fn ferry_instant(journey: JourneyView, departure: FerryDeparture) -> int {
    clock_time_on_day_of(journey.departure.0, departure.hour as int, departure.minute as int)
}

/// Whether the passengers of `journey` can reach the ferry `departure`: the ferry leaves at
/// or after the bus's departure, and `min_travel` minutes after the ferry has left the bus
/// has not yet arrived, or arrives just then.
pub open spec fn feasible(journey: JourneyView, departure: FerryDeparture, min_travel: int) -> bool {
    let leaves = ferry_instant(journey, departure);
    &&& not_after(journey.departure, (leaves, 0int))
    &&& not_after((leaves + 60 * min_travel, 0int), journey.arrival)
}

/// Whether departure `p` comes no later in the day than departure `q`; of two departures at
/// the same clock time, the one listed first counts as the earlier.
pub open spec fn earlier_or_same(schedule: Seq<FerryDeparture>, p: int, q: int) -> bool {
    schedule[p].minute_of_day() < schedule[q].minute_of_day() || (schedule[p].minute_of_day()
        == schedule[q].minute_of_day() && p <= q)
}

/// Whether departure `p` is the chronologically earliest that `journey` can reach.
pub open spec fn is_earliest_feasible(
    journey: JourneyView,
    schedule: Seq<FerryDeparture>,
    min_travel: int,
    p: int,
) -> bool {
    &&& 0 <= p < schedule.len()
    &&& feasible(journey, schedule[p], min_travel)
    &&& forall|q: int|
        0 <= q < schedule.len() && feasible(journey, #[trigger] schedule[q], min_travel)
            ==> earlier_or_same(schedule, p, q)
}

/// The positions, ascending, of the departures among the first `n` that `journey` can reach.
pub open spec fn feasible_positions(
    journey: JourneyView,
    schedule: Seq<FerryDeparture>,
    min_travel: int,
    n: int,
) -> Seq<int>
    decreases n,
{
    if n <= 0 {
        Seq::<int>::empty()
    } else {
        let before = feasible_positions(journey, schedule, min_travel, n - 1);
        if feasible(journey, schedule[n - 1], min_travel) {
            before.push(n - 1)
        } else {
            before
        }
    }
}

/// The entry that lists `journey` under a ferry.
pub open spec fn bus_of(journey: JourneyView, first_possible: bool) -> BusAssignmentView {
    BusAssignmentView {
        name: journey.name,
        origin: journey.origin,
        destination: journey.destination,
        dep: clock_label(hour_of_day(journey.departure.0), minute_of_hour(journey.departure.0)),
        arr: clock_label(hour_of_day(journey.arrival.0), minute_of_hour(journey.arrival.0)),
        first_possible,
    }
}

/// The assignments of `journey` to the first `n` departures: one for each departure it can
/// reach, in schedule order, with the chronologically earliest of the whole schedule marked.
pub open spec fn assignments_upto(
    journey: JourneyView,
    schedule: Seq<FerryDeparture>,
    min_travel: int,
    n: int,
) -> Seq<AssignmentView> {
    let positions = feasible_positions(journey, schedule, min_travel, n);
    Seq::new(
        positions.len(),
        |k: int|
            AssignmentView {
                ferry: positions[k],
                bus: bus_of(
                    journey,
                    is_earliest_feasible(journey, schedule, min_travel, positions[k]),
                ),
            },
    )
}

/// The assignments of `journey`: one for each departure of the schedule that it can reach.
pub open spec fn assignments_of(
    journey: JourneyView,
    schedule: Seq<FerryDeparture>,
    min_travel: int,
) -> Seq<AssignmentView> {
    assignments_upto(journey, schedule, min_travel, schedule.len() as int)
}

/// The assignments of all `journeys`, journey by journey in the order given.
pub open spec fn all_assignments(
    journeys: Seq<JourneyView>,
    schedule: Seq<FerryDeparture>,
    min_travel: int,
) -> Seq<AssignmentView>
    decreases journeys.len(),
{
    if journeys.len() == 0 {
        Seq::<AssignmentView>::empty()
    } else {
        all_assignments(journeys.drop_last(), schedule, min_travel) + assignments_of(
            journeys.last(),
            schedule,
            min_travel,
        )
    }
}

/// The views of a list of journeys, in order.
pub open spec fn journey_views(journeys: Seq<Journey>) -> Seq<JourneyView> {
    journeys.map_values(|j: Journey| j@)
}

/// Whether every departure of the schedule is a clock time.
pub open spec fn clock_times(schedule: Seq<FerryDeparture>) -> bool {
    forall|i: int| 0 <= i < schedule.len() ==> (#[trigger] schedule[i]).wf()
}

/// Whether the passengers of `journey` can reach the ferry `departure`, given that they need
/// `min_travel_minutes` between the ferry's departure and the bus's arrival.
pub fn is_feasible(journey: &Journey, departure: FerryDeparture, min_travel_minutes: i64) -> (r:
    bool)
    requires
        journey.wf(),
        departure.wf(),
    ensures
        r == feasible(journey@, departure, min_travel_minutes as int),
{
    let leaves = journey.departure().at_clock_time(departure.hour, departure.minute);
    let due: i128 = leaves.secs() as i128 + 60 * (min_travel_minutes as i128);
    journey.departure().is_not_after(&leaves) && due <= journey.arrival().secs() as i128
}

/// The position of the chronologically earliest departure that `journey` can reach, or
/// `None` where it can reach none.
///
/// The schedule may be in any order: departures are compared by their clock time, and of
/// two at the same clock time the one listed first is taken.
pub fn earliest_feasible(
    journey: &Journey,
    schedule: &Vec<FerryDeparture>,
    min_travel_minutes: i64,
) -> (r: Option<usize>)
    requires
        journey.wf(),
        clock_times(schedule@),
    ensures
        r matches Some(p) ==> is_earliest_feasible(
            journey@,
            schedule@,
            min_travel_minutes as int,
            p as int,
        ),
        r is None <==> forall|q: int|
            0 <= q < schedule@.len() ==> !feasible(
                journey@,
                #[trigger] schedule@[q],
                min_travel_minutes as int,
            ),
{
    let mut best: Option<usize> = None;
    let mut i: usize = 0;
    while i < schedule.len()
        invariant
            i <= schedule@.len(),
            journey.wf(),
            clock_times(schedule@),
            best matches Some(p) ==> {
                &&& p < i
                &&& feasible(journey@, schedule@[p as int], min_travel_minutes as int)
                &&& forall|q: int|
                    0 <= q < i && feasible(
                        journey@,
                        #[trigger] schedule@[q],
                        min_travel_minutes as int,
                    ) ==> earlier_or_same(schedule@, p as int, q)
            },
            best is None ==> forall|q: int|
                0 <= q < i ==> !feasible(
                    journey@,
                    #[trigger] schedule@[q],
                    min_travel_minutes as int,
                ),
        decreases schedule@.len() - i,
    {
        if is_feasible(journey, schedule[i], min_travel_minutes) {
            match best {
                None => {
                    best = Some(i);
                },
                Some(p) => {
                    if schedule[i].minutes_since_midnight() < schedule[p].minutes_since_midnight() {
                        best = Some(i);
                    }
                },
            }
        }
        i += 1;
    }
    best
}

/// The assignments of one journey: one for each departure of the schedule that the journey
/// can reach, in schedule order. The assignment to the chronologically earliest of them has
/// `first_possible` set, and no other.
pub fn match_journey(
    journey: &Journey,
    schedule: &Vec<FerryDeparture>,
    min_travel_minutes: i64,
) -> (r: Vec<Assignment>)
    requires
        journey.wf(),
        clock_times(schedule@),
    ensures
        assignment_views(r@) == assignments_of(journey@, schedule@, min_travel_minutes as int),
{
    let earliest = earliest_feasible(journey, schedule, min_travel_minutes);
    let dep: String = journey.departure().clock_text();
    let arr: String = journey.arrival().clock_text();
    let mut found: Vec<Assignment> = Vec::new();
    let mut i: usize = 0;
    assert(assignment_views(found@) =~= assignments_upto(
        journey@,
        schedule@,
        min_travel_minutes as int,
        0,
    ));
    while i < schedule.len()
        invariant
            i <= schedule@.len(),
            journey.wf(),
            clock_times(schedule@),
            dep@ == bus_of(journey@, true).dep,
            arr@ == bus_of(journey@, true).arr,
            earliest matches Some(p) ==> is_earliest_feasible(
                journey@,
                schedule@,
                min_travel_minutes as int,
                p as int,
            ),
            earliest is None ==> forall|q: int|
                0 <= q < schedule@.len() ==> !feasible(
                    journey@,
                    #[trigger] schedule@[q],
                    min_travel_minutes as int,
                ),
            assignment_views(found@) == assignments_upto(
                journey@,
                schedule@,
                min_travel_minutes as int,
                i as int,
            ),
        decreases schedule@.len() - i,
    {
        if is_feasible(journey, schedule[i], min_travel_minutes) {
            let first_possible: bool = match earliest {
                Some(p) => p == i,
                None => false,
            };
            proof {
                if let Some(p) = earliest {
                    if is_earliest_feasible(
                        journey@,
                        schedule@,
                        min_travel_minutes as int,
                        i as int,
                    ) {
                        lemma_earliest_is_unique(
                            journey@,
                            schedule@,
                            min_travel_minutes as int,
                            p as int,
                            i as int,
                        );
                    }
                }
            }
            let ghost before = found@;
            found.push(
                Assignment {
                    ferry: i,
                    bus: BusAssignment {
                        name: journey.name().clone(),
                        origin: journey.origin().clone(),
                        destination: journey.destination().clone(),
                        dep: dep.clone(),
                        arr: arr.clone(),
                        first_possible,
                    },
                },
            );
            assert(assignment_views(found@) =~= assignment_views(before).push(found@.last()@));
        }
        assert(assignment_views(found@) =~= assignments_upto(
            journey@,
            schedule@,
            min_travel_minutes as int,
            i + 1,
        ));
        i += 1;
    }
    found
}

/// The assignments of all journeys, journey by journey in the order given.
pub fn match_all(journeys: &Vec<Journey>, schedule: &Vec<FerryDeparture>, min_travel_minutes: i64)
    -> (r: Vec<Assignment>)
    requires
        forall|i: int| 0 <= i < journeys@.len() ==> (#[trigger] journeys@[i]).wf(),
        clock_times(schedule@),
    ensures
        assignment_views(r@) == all_assignments(
            journey_views(journeys@),
            schedule@,
            min_travel_minutes as int,
        ),
{
    let mut found: Vec<Assignment> = Vec::new();
    let mut i: usize = 0;
    assert(journey_views(journeys@).take(0) =~= Seq::<JourneyView>::empty());
    assert(assignment_views(found@) =~= Seq::<AssignmentView>::empty());
    while i < journeys.len()
        invariant
            i <= journeys@.len(),
            forall|k: int| 0 <= k < journeys@.len() ==> (#[trigger] journeys@[k]).wf(),
            clock_times(schedule@),
            assignment_views(found@) == all_assignments(
                journey_views(journeys@).take(i as int),
                schedule@,
                min_travel_minutes as int,
            ),
        decreases journeys@.len() - i,
    {
        let mut more: Vec<Assignment> = match_journey(&journeys[i], schedule, min_travel_minutes);
        let ghost before = found@;
        let ghost added = more@;
        found.append(&mut more);
        proof {
            let views = journey_views(journeys@);
            assert(views.take(i + 1).drop_last() =~= views.take(i as int));
            assert(views.take(i + 1).last() == journeys@[i as int]@);
            assert(assignment_views(found@) =~= assignment_views(before) + assignment_views(
                added,
            ));
        }
        i += 1;
    }
    assert(journey_views(journeys@).take(i as int) =~= journey_views(journeys@));
    found
}

/// The assignment at position `k` is the only one marked `first_possible`, and it names
/// the chronologically earliest departure that the journey can reach.
pub open spec fn marks_earliest_only(
    journey: JourneyView,
    schedule: Seq<FerryDeparture>,
    min_travel: int,
    k: int,
) -> bool {
    let assignments = assignments_of(journey, schedule, min_travel);
    &&& 0 <= k < assignments.len()
    &&& assignments[k].bus.first_possible
    &&& is_earliest_feasible(journey, schedule, min_travel, assignments[k].ferry)
    &&& forall|other: int|
        0 <= other < assignments.len() && (#[trigger] assignments[other]).bus.first_possible
            ==> other == k
}

/// The positions listed for the first `n` departures are exactly those that the journey can
/// reach: each listed position is reachable, each reachable position is listed, and the
/// list ascends, so none is listed twice.
pub proof fn lemma_feasible_positions(
    journey: JourneyView,
    schedule: Seq<FerryDeparture>,
    min_travel: int,
    n: int,
)
    requires
        0 <= n <= schedule.len(),
    ensures
        forall|k: int|
            0 <= k < feasible_positions(journey, schedule, min_travel, n).len() ==> {
                let p = #[trigger] feasible_positions(journey, schedule, min_travel, n)[k];
                0 <= p < n && feasible(journey, schedule[p], min_travel)
            },
        forall|k: int, l: int|
            0 <= k < l < feasible_positions(journey, schedule, min_travel, n).len()
                ==> feasible_positions(journey, schedule, min_travel, n)[k] < feasible_positions(
                journey,
                schedule,
                min_travel,
                n,
            )[l],
        forall|p: int|
            0 <= p < n && feasible(journey, #[trigger] schedule[p], min_travel)
                ==> feasible_positions(journey, schedule, min_travel, n).contains(p),
    decreases n,
{
    if n > 0 {
        lemma_feasible_positions(journey, schedule, min_travel, n - 1);
        let before = feasible_positions(journey, schedule, min_travel, n - 1);
        let now = feasible_positions(journey, schedule, min_travel, n);
        assert forall|p: int|
            0 <= p < n && feasible(journey, #[trigger] schedule[p], min_travel) implies now.contains(
            p,
        ) by {
            if p < n - 1 {
                assert(before.contains(p));
                let k = choose|k: int| 0 <= k < before.len() && before[k] == p;
                assert(now[k] == p);
            } else {
                assert(now[now.len() - 1] == p);
            }
        }
    }
}

/// The chronologically earliest departure among the first `n` that the journey can reach,
/// or -1 where it can reach none of them.
proof fn earliest_among(
    journey: JourneyView,
    schedule: Seq<FerryDeparture>,
    min_travel: int,
    n: int,
) -> (e: int)
    requires
        0 <= n <= schedule.len(),
    ensures
        e == -1 ==> forall|q: int|
            0 <= q < n ==> !feasible(journey, #[trigger] schedule[q], min_travel),
        e != -1 ==> {
            &&& 0 <= e < n
            &&& feasible(journey, schedule[e], min_travel)
            &&& forall|q: int|
                0 <= q < n && feasible(journey, #[trigger] schedule[q], min_travel)
                    ==> earlier_or_same(schedule, e, q)
        },
    decreases n,
{
    if n == 0 {
        -1
    } else {
        let before = earliest_among(journey, schedule, min_travel, n - 1);
        if !feasible(journey, schedule[n - 1], min_travel) {
            before
        } else if before == -1 || schedule[n - 1].minute_of_day() < schedule[before].minute_of_day() {
            n - 1
        } else {
            before
        }
    }
}

/// A journey that can reach a ferry has exactly one assignment marked `first_possible`, and
/// that assignment names the chronologically earliest departure it can reach.
pub proof fn lemma_exactly_one_first_possible(
    journey: JourneyView,
    schedule: Seq<FerryDeparture>,
    min_travel: int,
    p: int,
)
    requires
        0 <= p < schedule.len(),
        feasible(journey, schedule[p], min_travel),
    ensures
        exists|k: int| marks_earliest_only(journey, schedule, min_travel, k),
{
    let n = schedule.len() as int;
    let positions = feasible_positions(journey, schedule, min_travel, n);
    let assignments = assignments_of(journey, schedule, min_travel);
    lemma_feasible_positions(journey, schedule, min_travel, n);
    let e = earliest_among(journey, schedule, min_travel, n);
    assert(e != -1);
    assert(is_earliest_feasible(journey, schedule, min_travel, e));
    assert(positions.contains(e));
    let k = choose|k: int| 0 <= k < positions.len() && positions[k] == e;
    assert(assignments[k].ferry == e);
    assert forall|other: int|
        0 <= other < assignments.len() && (
        #[trigger] assignments[other]).bus.first_possible implies other == k by {
        lemma_earliest_is_unique(journey, schedule, min_travel, positions[other], e);
        if other < k {
            assert(positions[other] < positions[k]);
        } else if k < other {
            assert(positions[k] < positions[other]);
        }
    }
    assert(marks_earliest_only(journey, schedule, min_travel, k));
}

/// A journey has no assignment exactly if it can reach no departure of the schedule.
pub proof fn lemma_no_ferry_no_assignment(
    journey: JourneyView,
    schedule: Seq<FerryDeparture>,
    min_travel: int,
)
    ensures
        assignments_of(journey, schedule, min_travel).len() == 0 <==> forall|q: int|
            0 <= q < schedule.len() ==> !feasible(journey, #[trigger] schedule[q], min_travel),
{
    let n = schedule.len() as int;
    let positions = feasible_positions(journey, schedule, min_travel, n);
    lemma_feasible_positions(journey, schedule, min_travel, n);
    if positions.len() > 0 {
        let p = positions[0];
        assert(feasible(journey, schedule[p], min_travel));
    } else {
        assert forall|q: int| 0 <= q < schedule.len() implies !feasible(
            journey,
            #[trigger] schedule[q],
            min_travel,
        ) by {
            if feasible(journey, schedule[q], min_travel) {
                assert(positions.contains(q));
            }
        }
    }
}

/// Under a chronological schedule the first assignment of a journey is the one marked
/// `first_possible`, and no later one is.
pub proof fn lemma_first_listed_is_marked(
    journey: JourneyView,
    schedule: Seq<FerryDeparture>,
    min_travel: int,
)
    requires
        chronological(schedule),
        assignments_of(journey, schedule, min_travel).len() > 0,
    ensures
        marks_earliest_only(journey, schedule, min_travel, 0),
{
    let n = schedule.len() as int;
    let positions = feasible_positions(journey, schedule, min_travel, n);
    let assignments = assignments_of(journey, schedule, min_travel);
    lemma_feasible_positions(journey, schedule, min_travel, n);
    let first = positions[0];
    assert forall|q: int|
        0 <= q < schedule.len() && feasible(
            journey,
            #[trigger] schedule[q],
            min_travel,
        ) implies earlier_or_same(schedule, first, q) by {
        assert(positions.contains(q));
        let k = choose|k: int| 0 <= k < positions.len() && positions[k] == q;
        if k > 0 {
            assert(positions[0] < positions[k]);
            assert(schedule[first].minute_of_day() < schedule[q].minute_of_day());
        }
    }
    assert(is_earliest_feasible(journey, schedule, min_travel, first));
    assert forall|other: int|
        0 <= other < assignments.len() && (
        #[trigger] assignments[other]).bus.first_possible implies other == 0 by {
        lemma_earliest_is_unique(journey, schedule, min_travel, positions[other], first);
        if other > 0 {
            assert(positions[0] < positions[other]);
        }
    }
}

/// The lower bound is inclusive: a ferry that leaves at the very instant of the bus's
/// departure can be reached, provided the bus arrives late enough.
pub proof fn lemma_departure_bound_is_inclusive(
    journey: JourneyView,
    departure: FerryDeparture,
    min_travel: int,
)
    requires
        journey.wf(),
        journey.departure == (ferry_instant(journey, departure), 0int),
        ferry_instant(journey, departure) + 60 * min_travel <= journey.arrival.0,
    ensures
        feasible(journey, departure, min_travel),
{
}

/// A ferry that leaves one minute before the bus departs cannot be reached.
pub proof fn lemma_ferry_before_departure_is_missed(
    journey: JourneyView,
    departure: FerryDeparture,
    min_travel: int,
)
    requires
        journey.wf(),
        ferry_instant(journey, departure) == journey.departure.0 - 60,
    ensures
        !feasible(journey, departure, min_travel),
{
}

/// The upper bound is inclusive: a ferry that leaves exactly the minimum travel time before
/// the bus arrives can be reached, provided it does not leave before the bus departs.
pub proof fn lemma_arrival_bound_is_inclusive(
    journey: JourneyView,
    departure: FerryDeparture,
    min_travel: int,
)
    requires
        journey.wf(),
        not_after(journey.departure, (ferry_instant(journey, departure), 0int)),
        ferry_instant(journey, departure) + 60 * min_travel == journey.arrival.0,
    ensures
        feasible(journey, departure, min_travel),
{
}

/// A bus that arrives one minute too early for a ferry cannot reach it.
pub proof fn lemma_arrival_one_minute_short_is_missed(
    journey: JourneyView,
    departure: FerryDeparture,
    min_travel: int,
)
    requires
        journey.wf(),
        journey.arrival.0 == ferry_instant(journey, departure) + 60 * min_travel - 60,
    ensures
        !feasible(journey, departure, min_travel),
{
}

/// At most one departure is the earliest that a journey can reach.
pub proof fn lemma_earliest_is_unique(
    journey: JourneyView,
    schedule: Seq<FerryDeparture>,
    min_travel: int,
    p: int,
    q: int,
)
    requires
        is_earliest_feasible(journey, schedule, min_travel, p),
        is_earliest_feasible(journey, schedule, min_travel, q),
    ensures
        p == q,
{
    assert(earlier_or_same(schedule, p, q));
    assert(earlier_or_same(schedule, q, p));
}

} // verus!
