//! Groups the assignments of all buses by ferry departure.

use crate::clock::clock_label;
use crate::journey::{
    journey_of_legs, malformed_text, Journey, JourneyRecord, JourneyView, MalformedJourney,
};
use crate::matcher::{
    all_assignments, assignment_views, assignments_of, assignments_upto, bus_of, clock_times,
    feasible, is_earliest_feasible, journey_views, match_all, Assignment, AssignmentView,
    BusAssignment, BusAssignmentView,
};
use crate::schedule::{
    daily_schedule, schedule_of, FerryDeparture, MatchConfig, DEFAULT_MIN_TRAVEL_MINUTES,
};
use vstd::prelude::*;
use vstd::string::*;

verus! {

/// One ferry departure with the buses that can reach it.
#[derive(Debug)]
pub struct Ferry {
    /// The departure as `HH:MM`.
    pub ferry_dep: String,
    /// The buses that can reach the ferry, in the order in which the journeys were given.
    pub buses: Vec<BusAssignment>,
}

/// The mathematical content of a [`Ferry`].
pub struct FerryView {
    pub ferry_dep: Seq<char>,
    pub buses: Seq<BusAssignmentView>,
}

impl View for Ferry {
    type V = FerryView;

    open spec fn view(&self) -> FerryView {
        FerryView { ferry_dep: self.ferry_dep@, buses: bus_views(self.buses@) }
    }
}

/// The views of a list of buses, in order.
pub open spec fn bus_views(buses: Seq<BusAssignment>) -> Seq<BusAssignmentView> {
    buses.map_values(|b: BusAssignment| b@)
}

/// The views of a list of ferries, in order.
pub open spec fn ferry_views(ferries: Seq<Ferry>) -> Seq<FerryView> {
    ferries.map_values(|f: Ferry| f@)
}

/// The buses assigned to the departure at position `ferry`, in the order of `assignments`.
pub open spec fn buses_for(assignments: Seq<AssignmentView>, ferry: int) -> Seq<
    BusAssignmentView,
> {
    assignments.filter(|a: AssignmentView| a.ferry == ferry).map_values(|a: AssignmentView| a.bus)
}

/// The assignments grouped by departure: one entry for each departure of the schedule, in
/// schedule order, also where no bus reaches it.
pub open spec fn grouped(schedule: Seq<FerryDeparture>, assignments: Seq<AssignmentView>) -> Seq<
    FerryView,
> {
    Seq::new(
        schedule.len(),
        |i: int|
            FerryView {
                ferry_dep: clock_label(schedule[i].hour as int, schedule[i].minute as int),
                buses: buses_for(assignments, i),
            },
    )
}

/// The ferries of a schedule with the buses among `journeys` that can reach each.
pub open spec fn ferries_of(
    journeys: Seq<JourneyView>,
    schedule: Seq<FerryDeparture>,
    min_travel: int,
) -> Seq<FerryView> {
    grouped(schedule, all_assignments(journeys, schedule, min_travel))
}

/// Groups assignments by the departure they name. The result has one entry for each
/// departure of the schedule, in schedule order; under each stand the buses assigned to it,
/// in the order of `assignments`. An assignment that names no departure of the schedule is
/// listed nowhere.
pub fn assemble(schedule: &Vec<FerryDeparture>, assignments: &Vec<Assignment>) -> (r: Vec<Ferry>)
    requires
        clock_times(schedule@),
    ensures
        ferry_views(r@) == grouped(schedule@, assignment_views(assignments@)),
{
    let mut ferries: Vec<Ferry> = Vec::new();
    let mut i: usize = 0;
    while i < schedule.len()
        invariant
            i <= schedule@.len(),
            clock_times(schedule@),
            ferries@.len() == i,
            forall|f: int|
                0 <= f < i ==> (#[trigger] ferries@[f])@ == grouped(
                    schedule@,
                    assignment_views(assignments@),
                )[f],
        decreases schedule@.len() - i,
    {
        let buses: Vec<BusAssignment> = buses_at(assignments, i);
        ferries.push(Ferry { ferry_dep: schedule[i].label(), buses });
        i += 1;
    }
    assert(ferry_views(ferries@) =~= grouped(schedule@, assignment_views(assignments@)));
    ferries
}

/// The buses assigned to the departure at position `ferry`, in the order of `assignments`.
fn buses_at(assignments: &Vec<Assignment>, ferry: usize) -> (r: Vec<BusAssignment>)
    ensures
        bus_views(r@) == buses_for(assignment_views(assignments@), ferry as int),
{
    let mut buses: Vec<BusAssignment> = Vec::new();
    let mut k: usize = 0;
    proof {
        let views = assignment_views(assignments@);
        assert(views.take(0) =~= Seq::<AssignmentView>::empty());
        reveal_with_fuel(Seq::filter, 1);
        assert(bus_views(buses@) =~= buses_for(views.take(0), ferry as int));
    }
    while k < assignments.len()
        invariant
            k <= assignments@.len(),
            bus_views(buses@) == buses_for(
                assignment_views(assignments@).take(k as int),
                ferry as int,
            ),
        decreases assignments@.len() - k,
    {
        let ghost before = buses@;
        if assignments[k].ferry == ferry {
            buses.push(assignments[k].bus.clone());
        }
        proof {
            let views = assignment_views(assignments@);
            let wanted = |a: AssignmentView| a.ferry == ferry as int;
            assert(views.take(k + 1) =~= views.take(k as int).push(views[k as int]));
            views.take(k as int).lemma_filter_push(views[k as int], wanted);
            if assignments@[k as int].ferry == ferry {
                assert(bus_views(buses@) =~= bus_views(before).push(views[k as int].bus));
            }
            assert(bus_views(buses@) =~= buses_for(views.take(k + 1), ferry as int));
        }
        k += 1;
    }
    assert(assignment_views(assignments@).take(k as int) =~= assignment_views(assignments@));
    buses
}

/// For each departure of the configured schedule, in chronological order, the buses among
/// `journeys` that can reach it. Under each ferry the buses stand in the order in which the
/// journeys were given; each bus is marked on the earliest ferry that it can reach.
pub fn connections(journeys: &Vec<Journey>, config: &MatchConfig) -> (r: Vec<Ferry>)
    requires
        config.wf(),
        forall|i: int| 0 <= i < journeys@.len() ==> (#[trigger] journeys@[i]).wf(),
    ensures
        ferry_views(r@) == ferries_of(
            journey_views(journeys@),
            schedule_of(config.ferry_minutes()),
            config.min_travel_minutes(),
        ),
{
    let schedule: Vec<FerryDeparture> = config.schedule();
    let assignments: Vec<Assignment> = match_all(journeys, &schedule, config.min_travel());
    assemble(&schedule, &assignments)
}

/// The buses among `journeys` that can reach the departure at position `ferry`, in the
/// order given, each marked where that departure is the earliest it can reach.
pub open spec fn buses_reaching(
    journeys: Seq<JourneyView>,
    schedule: Seq<FerryDeparture>,
    min_travel: int,
    ferry: int,
) -> Seq<BusAssignmentView> {
    journeys.filter(|j: JourneyView| feasible(j, schedule[ferry], min_travel)).map_values(
        |j: JourneyView| bus_of(j, is_earliest_feasible(j, schedule, min_travel, ferry)),
    )
}

/// Of the assignments of one journey to the first `n` departures, those to the departure at
/// position `ferry` are one where the journey can reach it and `ferry` is below `n`, and
/// none otherwise.
proof fn lemma_buses_of_one_journey(
    journey: JourneyView,
    schedule: Seq<FerryDeparture>,
    min_travel: int,
    ferry: int,
    n: int,
)
    requires
        0 <= n <= schedule.len(),
        0 <= ferry,
    ensures
        buses_for(assignments_upto(journey, schedule, min_travel, n), ferry) == if ferry < n
            && feasible(journey, schedule[ferry], min_travel) {
            seq![bus_of(journey, is_earliest_feasible(journey, schedule, min_travel, ferry))]
        } else {
            Seq::<BusAssignmentView>::empty()
        },
    decreases n,
{
    let wanted = |a: AssignmentView| a.ferry == ferry;
    let now = assignments_upto(journey, schedule, min_travel, n);
    if n == 0 {
        reveal_with_fuel(Seq::filter, 1);
        assert(now =~= Seq::<AssignmentView>::empty());
        assert(buses_for(now, ferry) =~= Seq::<BusAssignmentView>::empty());
    } else {
        lemma_buses_of_one_journey(journey, schedule, min_travel, ferry, n - 1);
        let before = assignments_upto(journey, schedule, min_travel, n - 1);
        if feasible(journey, schedule[n - 1], min_travel) {
            let entry = AssignmentView {
                ferry: n - 1,
                bus: bus_of(
                    journey,
                    is_earliest_feasible(journey, schedule, min_travel, n - 1),
                ),
            };
            assert(now =~= before.push(entry));
            before.lemma_filter_push(entry, wanted);
            if ferry == n - 1 {
                assert(buses_for(now, ferry) =~= buses_for(before, ferry).push(entry.bus));
                assert(buses_for(now, ferry) =~= seq![entry.bus]);
            }
        } else {
            assert(now =~= before);
        }
    }
}

/// Under each ferry stand exactly the buses that can reach it, in the order in which the
/// journeys were given, and each bus is marked where that ferry is the earliest it can reach.
pub proof fn lemma_buses_under_ferry(
    journeys: Seq<JourneyView>,
    schedule: Seq<FerryDeparture>,
    min_travel: int,
    ferry: int,
)
    requires
        0 <= ferry < schedule.len(),
    ensures
        ferries_of(journeys, schedule, min_travel)[ferry].buses == buses_reaching(
            journeys,
            schedule,
            min_travel,
            ferry,
        ),
    decreases journeys.len(),
{
    let wanted = |a: AssignmentView| a.ferry == ferry;
    let reaches = |j: JourneyView| feasible(j, schedule[ferry], min_travel);
    if journeys.len() == 0 {
        reveal_with_fuel(Seq::filter, 1);
        assert(buses_for(all_assignments(journeys, schedule, min_travel), ferry)
            =~= Seq::<BusAssignmentView>::empty());
        assert(buses_reaching(journeys, schedule, min_travel, ferry)
            =~= Seq::<BusAssignmentView>::empty());
    } else {
        let earlier = journeys.drop_last();
        let last = journeys.last();
        lemma_buses_under_ferry(earlier, schedule, min_travel, ferry);
        lemma_buses_of_one_journey(last, schedule, min_travel, ferry, schedule.len() as int);
        let head = all_assignments(earlier, schedule, min_travel);
        let tail = assignments_of(last, schedule, min_travel);
        Seq::filter_distributes_over_add(head, tail, wanted);
        assert(buses_for(head + tail, ferry) =~= buses_for(head, ferry) + buses_for(tail, ferry));
        assert(journeys =~= earlier.push(last));
        earlier.lemma_filter_push(last, reaches);
        if feasible(last, schedule[ferry], min_travel) {
            assert(buses_reaching(journeys, schedule, min_travel, ferry) =~= buses_reaching(
                earlier,
                schedule,
                min_travel,
                ferry,
            ).push(bus_of(last, is_earliest_feasible(last, schedule, min_travel, ferry))));
        }
        assert(buses_for(all_assignments(journeys, schedule, min_travel), ferry)
            =~= buses_reaching(journeys, schedule, min_travel, ferry));
    }
}

/// Matching is repeatable: two runs on the same journeys, schedule and travel time list
/// the same ferries with the same buses.
pub proof fn lemma_same_journeys_same_ferries(
    first: Seq<Ferry>,
    second: Seq<Ferry>,
    journeys: Seq<JourneyView>,
    schedule: Seq<FerryDeparture>,
    min_travel: int,
)
    requires
        ferry_views(first) == ferries_of(journeys, schedule, min_travel),
        ferry_views(second) == ferries_of(journeys, schedule, min_travel),
    ensures
        ferry_views(first) == ferry_views(second),
        first.len() == second.len(),
        forall|i: int| 0 <= i < first.len() ==> (#[trigger] first[i])@ == second[i]@,
{
    assert(ferry_views(first).len() == first.len());
    assert(ferry_views(second).len() == second.len());
    assert forall|i: int| 0 <= i < first.len() implies (#[trigger] first[i])@ == second[i]@ by {
        assert(ferry_views(first)[i] == first[i]@);
        assert(ferry_views(second)[i] == second[i]@);
    }
}

/// Why no ferries could be listed.
#[derive(Clone, Copy, Debug, PartialEq, Eq, Structural)]
pub enum FetchError {
    /// The stop lookup named no stop.
    StopNotFound,
    /// The journey planner's reply holds no list of journeys.
    NoJourneys,
    /// The journey at position `index` of the reply is refused for `reason`.
    MalformedJourney { index: usize, reason: MalformedJourney },
}

/// What to tell a reader about a failure.
pub open spec fn fetch_error_text(error: FetchError) -> Seq<char> {
    match error {
        FetchError::StopNotFound => "Stop ID not found"@,
        FetchError::NoJourneys => "No journeys"@,
        FetchError::MalformedJourney { index, reason } => malformed_text(reason),
    }
}

impl FetchError {
    /// The failure in words. For a malformed journey the words give the reason; the
    /// journey's position is in the error itself.
    pub fn message(&self) -> (r: &'static str)
        ensures
            r@ == fetch_error_text(*self),
    {
        match self {
            FetchError::StopNotFound => "Stop ID not found",
            FetchError::NoJourneys => "No journeys",
            FetchError::MalformedJourney { index, reason } => reason.message(),
        }
    }
}

/// The journey planner's reply: its list of journeys, where it holds one.
#[derive(Debug)]
pub struct JourneysReply {
    pub journeys: Option<Vec<JourneyRecord>>,
}

/// Whether the record at position `index` is the first that is refused, and is refused
/// for `reason`.
pub open spec fn first_malformed(records: Seq<JourneyRecord>, index: int, reason: MalformedJourney)
    -> bool {
    &&& 0 <= index < records.len()
    &&& journey_of_legs(records[index].legs@) == Err::<JourneyView, MalformedJourney>(reason)
    &&& forall|k: int| 0 <= k < index ==> journey_of_legs((#[trigger] records[k]).legs@) is Ok
}

/// Whether every record describes a journey.
pub open spec fn all_well_formed(records: Seq<JourneyRecord>) -> bool {
    forall|k: int| 0 <= k < records.len() ==> journey_of_legs((#[trigger] records[k]).legs@) is Ok
}

/// The journeys that well-formed records describe, in order.
pub open spec fn journeys_of_records(records: Seq<JourneyRecord>) -> Seq<JourneyView> {
    Seq::new(records.len(), |k: int| journey_of_legs(records[k].legs@)->Ok_0)
}

/// The journeys that the records describe, in order. One malformed record makes the whole
/// batch fail: the error names the first such record and the reason.
pub fn read_journeys(records: &Vec<JourneyRecord>) -> (r: Result<Vec<Journey>, FetchError>)
    ensures
        r is Ok <==> all_well_formed(records@),
        r matches Ok(journeys) ==> {
            &&& journey_views(journeys@) == journeys_of_records(records@)
            &&& forall|i: int| 0 <= i < journeys@.len() ==> (#[trigger] journeys@[i]).wf()
        },
        r matches Err(error) ==> error matches FetchError::MalformedJourney { index, reason }
            && first_malformed(records@, index as int, reason),
{
    let mut journeys: Vec<Journey> = Vec::new();
    let mut i: usize = 0;
    while i < records.len()
        invariant
            i <= records@.len(),
            journeys@.len() == i,
            forall|k: int|
                0 <= k < i ==> journey_of_legs((#[trigger] records@[k]).legs@)
                    == Ok::<JourneyView, MalformedJourney>(journeys@[k]@),
            forall|k: int| 0 <= k < i ==> (#[trigger] journeys@[k]).wf(),
        decreases records@.len() - i,
    {
        match Journey::from_record(&records[i]) {
            Ok(journey) => {
                journeys.push(journey);
            },
            Err(reason) => {
                return Err(FetchError::MalformedJourney { index: i, reason });
            },
        }
        i += 1;
    }
    assert(journey_views(journeys@) =~= journeys_of_records(records@));
    Ok(journeys)
}

/// The ferries of the standard schedule, from 00:05 to 23:50, each with the buses of the
/// reply that can reach it when ten minutes are needed between ferry and bus.
///
/// Fails where the reply holds no list of journeys, and where one of its journeys is
/// malformed; a malformed journey is never passed over.
pub fn fetch_ferries(reply: &JourneysReply) -> (r: Result<Vec<Ferry>, FetchError>)
    ensures
        reply.journeys is None ==> r == Err::<Vec<Ferry>, FetchError>(FetchError::NoJourneys),
        reply.journeys matches Some(records) ==> {
            &&& r is Ok <==> all_well_formed(records@)
            &&& r matches Ok(ferries) ==> ferry_views(ferries@) == ferries_of(
                journeys_of_records(records@),
                daily_schedule(),
                DEFAULT_MIN_TRAVEL_MINUTES as int,
            )
            &&& r matches Err(error) ==> error matches FetchError::MalformedJourney {
                index,
                reason,
            } && first_malformed(records@, index as int, reason)
        },
{
    match &reply.journeys {
        None => Err(FetchError::NoJourneys),
        Some(records) => {
            match read_journeys(records) {
                Ok(journeys) => {
                    let config = MatchConfig::default();
                    Ok(connections(&journeys, &config))
                },
                Err(error) => Err(error),
            }
        },
    }
}

} // verus!
