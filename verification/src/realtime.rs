//! Bringing a journey's legs up to date with real-time calls, matched to the
//! leg's stops by name.

use vstd::prelude::*;
use crate::model::{IntermediateStop, Leg, ServiceJourneyRealtime};
use crate::text::{copy_opt_string, copy_string};

verus! {

/// The expected departure a leg ends up with: the last call at its origin
/// that has an expected departure gives it; otherwise it stays `current`.
pub open spec fn departure_after(calls: Seq<IntermediateStop>, origin: Seq<char>, current: String) -> String
    decreases calls.len(),
{
    if calls.len() == 0 {
        current
    } else {
        let c = calls.last();
        if c.name@ == origin && c.expected_departure is Some {
            c.expected_departure->0
        } else {
            departure_after(calls.drop_last(), origin, current)
        }
    }
}

/// The expected arrival a leg ends up with: the last call at its destination
/// that has an expected arrival gives it; otherwise it stays `current`.
pub open spec fn arrival_after(calls: Seq<IntermediateStop>, destination: Seq<char>, current: String) -> String
    decreases calls.len(),
{
    if calls.len() == 0 {
        current
    } else {
        let c = calls.last();
        if c.name@ == destination && c.expected_arrival is Some {
            c.expected_arrival->0
        } else {
            arrival_after(calls.drop_last(), destination, current)
        }
    }
}

/// The expected departure comes from the last call at the origin that has
/// one: if call `j` is at the origin with an expected departure and no later
/// call is, the leg departs at call `j`'s time; if no call is, the leg keeps
/// its time.
pub proof fn lemma_departure_from_last_call_at_origin(calls: Seq<IntermediateStop>, origin: Seq<char>, current: String)
    ensures
        forall|j: int|
            0 <= j < calls.len() && (#[trigger] calls[j]).name@ == origin && calls[j].expected_departure is Some
                && (forall|k: int| j < k < calls.len() ==> !((#[trigger] calls[k]).name@ == origin && calls[k].expected_departure is Some))
                ==> departure_after(calls, origin, current) == calls[j].expected_departure->0,
        (forall|k: int| 0 <= k < calls.len() ==> !((#[trigger] calls[k]).name@ == origin && calls[k].expected_departure is Some))
            ==> departure_after(calls, origin, current) == current,
    decreases calls.len(),
{
    if calls.len() > 0 {
        let d = calls.drop_last();
        lemma_departure_from_last_call_at_origin(d, origin, current);
        assert forall|j: int|
            0 <= j < calls.len() && (#[trigger] calls[j]).name@ == origin && calls[j].expected_departure is Some
                && (forall|k: int| j < k < calls.len() ==> !((#[trigger] calls[k]).name@ == origin && calls[k].expected_departure is Some))
                implies departure_after(calls, origin, current) == calls[j].expected_departure->0 by {
            if j < calls.len() - 1 {
                assert(!(calls[calls.len() - 1].name@ == origin && calls[calls.len() - 1].expected_departure is Some));
                assert(d[j] == calls[j]);
                assert forall|k: int| j < k < d.len() implies !((#[trigger] d[k]).name@ == origin && d[k].expected_departure is Some) by {
                    assert(d[k] == calls[k]);
                    assert(!(calls[k].name@ == origin && calls[k].expected_departure is Some));
                }
            }
        }
        if forall|k: int| 0 <= k < calls.len() ==> !((#[trigger] calls[k]).name@ == origin && calls[k].expected_departure is Some) {
            assert(!(calls[calls.len() - 1].name@ == origin && calls[calls.len() - 1].expected_departure is Some));
            assert forall|k: int| 0 <= k < d.len() implies !((#[trigger] d[k]).name@ == origin && d[k].expected_departure is Some) by {
                assert(d[k] == calls[k]);
                assert(!(calls[k].name@ == origin && calls[k].expected_departure is Some));
            }
        }
    }
}

/// The expected arrival comes from the last call at the destination that
/// has one; without such a call the leg keeps its time.
pub proof fn lemma_arrival_from_last_call_at_destination(calls: Seq<IntermediateStop>, destination: Seq<char>, current: String)
    ensures
        forall|j: int|
            0 <= j < calls.len() && (#[trigger] calls[j]).name@ == destination && calls[j].expected_arrival is Some
                && (forall|k: int| j < k < calls.len() ==> !((#[trigger] calls[k]).name@ == destination && calls[k].expected_arrival is Some))
                ==> arrival_after(calls, destination, current) == calls[j].expected_arrival->0,
        (forall|k: int| 0 <= k < calls.len() ==> !((#[trigger] calls[k]).name@ == destination && calls[k].expected_arrival is Some))
            ==> arrival_after(calls, destination, current) == current,
    decreases calls.len(),
{
    if calls.len() > 0 {
        let d = calls.drop_last();
        lemma_arrival_from_last_call_at_destination(d, destination, current);
        assert forall|j: int|
            0 <= j < calls.len() && (#[trigger] calls[j]).name@ == destination && calls[j].expected_arrival is Some
                && (forall|k: int| j < k < calls.len() ==> !((#[trigger] calls[k]).name@ == destination && calls[k].expected_arrival is Some))
                implies arrival_after(calls, destination, current) == calls[j].expected_arrival->0 by {
            if j < calls.len() - 1 {
                assert(!(calls[calls.len() - 1].name@ == destination && calls[calls.len() - 1].expected_arrival is Some));
                assert(d[j] == calls[j]);
                assert forall|k: int| j < k < d.len() implies !((#[trigger] d[k]).name@ == destination && d[k].expected_arrival is Some) by {
                    assert(d[k] == calls[k]);
                    assert(!(calls[k].name@ == destination && calls[k].expected_arrival is Some));
                }
            }
        }
        if forall|k: int| 0 <= k < calls.len() ==> !((#[trigger] calls[k]).name@ == destination && calls[k].expected_arrival is Some) {
            assert(!(calls[calls.len() - 1].name@ == destination && calls[calls.len() - 1].expected_arrival is Some));
            assert forall|k: int| 0 <= k < d.len() implies !((#[trigger] d[k]).name@ == destination && d[k].expected_arrival is Some) by {
                assert(d[k] == calls[k]);
                assert(!(calls[k].name@ == destination && calls[k].expected_arrival is Some));
            }
        }
    }
}

/// The first call at the stop named `name`.
pub open spec fn first_call_at(calls: Seq<IntermediateStop>, name: Seq<char>) -> Option<IntermediateStop>
    decreases calls.len(),
{
    if calls.len() == 0 {
        None
    } else if calls[0].name@ == name {
        Some(calls[0])
    } else {
        first_call_at(calls.drop_first(), name)
    }
}

/// An intermediate stop with the expected times of the first call at it.
pub open spec fn refreshed_stop(stop: IntermediateStop, calls: Seq<IntermediateStop>) -> IntermediateStop {
    match first_call_at(calls, stop.name@) {
        Some(c) => IntermediateStop {
            expected_arrival: c.expected_arrival,
            expected_departure: c.expected_departure,
            ..stop
        },
        None => stop,
    }
}

/// All intermediate stops refreshed from the calls.
pub open spec fn refreshed_stops(stops: Seq<IntermediateStop>, calls: Seq<IntermediateStop>) -> Seq<IntermediateStop> {
    stops.map_values(|s: IntermediateStop| refreshed_stop(s, calls))
}

proof fn lemma_first_call_at(calls: Seq<IntermediateStop>, name: Seq<char>, i: int)
    requires
        0 <= i <= calls.len(),
        forall|j: int| 0 <= j < i ==> #[trigger] calls[j].name@ != name,
    ensures
        first_call_at(calls, name) == first_call_at(calls.skip(i), name),
    decreases i,
{
    if i > 0 {
        assert(calls.drop_first().skip(i - 1) =~= calls.skip(i));
        lemma_first_call_at(calls.drop_first(), name, i - 1);
    } else {
        assert(calls.skip(0) =~= calls);
    }
}

/// Every intermediate stop, the last one included, takes the expected
/// arrival and departure of the first call at its name and keeps its name
/// and aimed times; a stop that no call names stays as it was.
pub proof fn lemma_every_stop_refreshed(stops: Seq<IntermediateStop>, calls: Seq<IntermediateStop>)
    ensures
        refreshed_stops(stops, calls).len() == stops.len(),
        forall|i: int, j: int|
            #![trigger refreshed_stops(stops, calls)[i], calls[j]]
            0 <= i < stops.len() && 0 <= j < calls.len() && calls[j].name@ == stops[i].name@
                && (forall|k: int| 0 <= k < j ==> (#[trigger] calls[k]).name@ != stops[i].name@) ==> {
                let r = refreshed_stops(stops, calls)[i];
                &&& r.name == stops[i].name
                &&& r.aimed_arrival == stops[i].aimed_arrival
                &&& r.aimed_departure == stops[i].aimed_departure
                &&& r.expected_arrival == calls[j].expected_arrival
                &&& r.expected_departure == calls[j].expected_departure
            },
        forall|i: int|
            0 <= i < stops.len() && (forall|k: int| 0 <= k < calls.len() ==> (#[trigger] calls[k]).name@ != stops[i].name@)
                ==> #[trigger] refreshed_stops(stops, calls)[i] == stops[i],
{
    assert forall|i: int, j: int|
        #![trigger refreshed_stops(stops, calls)[i], calls[j]]
        0 <= i < stops.len() && 0 <= j < calls.len() && calls[j].name@ == stops[i].name@
            && (forall|k: int| 0 <= k < j ==> (#[trigger] calls[k]).name@ != stops[i].name@) implies {
            let r = refreshed_stops(stops, calls)[i];
            &&& r.name == stops[i].name
            &&& r.aimed_arrival == stops[i].aimed_arrival
            &&& r.aimed_departure == stops[i].aimed_departure
            &&& r.expected_arrival == calls[j].expected_arrival
            &&& r.expected_departure == calls[j].expected_departure
        } by {
        lemma_first_call_at(calls, stops[i].name@, j);
        assert(calls.skip(j)[0] == calls[j]);
    }
    assert forall|i: int|
        0 <= i < stops.len() && (forall|k: int| 0 <= k < calls.len() ==> (#[trigger] calls[k]).name@ != stops[i].name@)
            implies #[trigger] refreshed_stops(stops, calls)[i] == stops[i] by {
        lemma_first_call_at(calls, stops[i].name@, calls.len() as int);
        assert(calls.skip(calls.len() as int).len() == 0);
    }
}

fn refresh_stop(stop: IntermediateStop, calls: &Vec<IntermediateStop>) -> (r: IntermediateStop)
    ensures
        r == refreshed_stop(stop, calls@),
{
    let mut i: usize = 0;
    while i < calls.len()
        invariant
            i <= calls@.len(),
            forall|j: int| 0 <= j < i ==> #[trigger] calls@[j].name@ != stop.name@,
        decreases calls@.len() - i,
    {
        if calls[i].name == stop.name {
            proof {
                lemma_first_call_at(calls@, stop.name@, i as int);
                assert(calls@.skip(i as int)[0] == calls@[i as int]);
            }
            return IntermediateStop {
                name: stop.name,
                aimed_arrival: stop.aimed_arrival,
                expected_arrival: copy_opt_string(&calls[i].expected_arrival),
                aimed_departure: stop.aimed_departure,
                expected_departure: copy_opt_string(&calls[i].expected_departure),
            };
        }
        i = i + 1;
    }
    proof {
        lemma_first_call_at(calls@, stop.name@, i as int);
        assert(calls@.skip(i as int).len() == 0);
    }
    stop
}

/// Whether `after` is `before` brought up to date with the real-time calls:
/// the expected departure from the call at its origin, the expected arrival
/// from the call at its destination, the expected times of each
/// intermediate stop from the first call at that stop, and nothing else
/// changed.
pub open spec fn refreshed_leg(before: Leg, after: Leg, calls: Seq<IntermediateStop>) -> bool {
    &&& after.expected_start == departure_after(calls, before.from_name@, before.expected_start)
    &&& after.expected_end == arrival_after(calls, before.to_name@, before.expected_end)
    &&& after.intermediate_stops@ == refreshed_stops(before.intermediate_stops@, calls)
    &&& after.mode == before.mode
    &&& after.from_name == before.from_name
    &&& after.to_name == before.to_name
    &&& after.from_lat_bits == before.from_lat_bits
    &&& after.from_lon_bits == before.from_lon_bits
    &&& after.to_lat_bits == before.to_lat_bits
    &&& after.to_lon_bits == before.to_lon_bits
    &&& after.aimed_start == before.aimed_start
    &&& after.aimed_end == before.aimed_end
    &&& after.line == before.line
    &&& after.destination == before.destination
    &&& after.service_journey_id == before.service_journey_id
}

/// Brings a leg up to date with the real-time calls of its service journey:
/// the expected departure from the call at its origin, the expected arrival
/// from the call at its destination, and the expected times of each
/// intermediate stop from the first call at that stop.
pub fn update_leg_from_realtime(leg: &mut Leg, rt: &ServiceJourneyRealtime)
    ensures
        refreshed_leg(*old(leg), *final(leg), rt.estimated_calls@),
        final(leg).intermediate_stops@.len() == old(leg).intermediate_stops@.len(),
        forall|i: int, j: int|
            #![trigger final(leg).intermediate_stops@[i], rt.estimated_calls@[j]]
            0 <= i < old(leg).intermediate_stops@.len() && 0 <= j < rt.estimated_calls@.len()
                && rt.estimated_calls@[j].name@ == old(leg).intermediate_stops@[i].name@
                && (forall|k: int| 0 <= k < j ==> (#[trigger] rt.estimated_calls@[k]).name@ != old(leg).intermediate_stops@[i].name@)
                ==> final(leg).intermediate_stops@[i].expected_arrival == rt.estimated_calls@[j].expected_arrival
                && final(leg).intermediate_stops@[i].expected_departure == rt.estimated_calls@[j].expected_departure,
{
    let calls = &rt.estimated_calls;
    let mut i: usize = 0;
    while i < calls.len()
        invariant
            i <= calls@.len(),
            leg.from_name == old(leg).from_name,
            leg.to_name == old(leg).to_name,
            leg.expected_start == departure_after(calls@.take(i as int), old(leg).from_name@, old(leg).expected_start),
            leg.expected_end == arrival_after(calls@.take(i as int), old(leg).to_name@, old(leg).expected_end),
            leg.intermediate_stops == old(leg).intermediate_stops,
            leg.mode == old(leg).mode,
            leg.from_lat_bits == old(leg).from_lat_bits,
            leg.from_lon_bits == old(leg).from_lon_bits,
            leg.to_lat_bits == old(leg).to_lat_bits,
            leg.to_lon_bits == old(leg).to_lon_bits,
            leg.aimed_start == old(leg).aimed_start,
            leg.aimed_end == old(leg).aimed_end,
            leg.line == old(leg).line,
            leg.destination == old(leg).destination,
            leg.service_journey_id == old(leg).service_journey_id,
        decreases calls@.len() - i,
    {
        let ghost prefix = calls@.take(i + 1);
        assert(prefix.drop_last() =~= calls@.take(i as int));
        assert(prefix.last() == calls@[i as int]);
        if calls[i].name == leg.from_name {
            if let Some(t) = &calls[i].expected_departure {
                leg.expected_start = copy_string(t);
            }
        }
        if calls[i].name == leg.to_name {
            if let Some(t) = &calls[i].expected_arrival {
                leg.expected_end = copy_string(t);
            }
        }
        i = i + 1;
    }
    assert(calls@.take(i as int) =~= calls@);
    let mut stops: Vec<IntermediateStop> = Vec::new();
    std::mem::swap(&mut stops, &mut leg.intermediate_stops);
    let ghost all = stops@;
    let mut fresh: Vec<IntermediateStop> = Vec::new();
    for s in it: stops
        invariant
            it.seq() == all,
            all == old(leg).intermediate_stops@,
            fresh@ == refreshed_stops(all.take(it.index() as int), calls@),
    {
        let ghost k = it.index() as int;
        assert(refreshed_stops(all.take(k + 1), calls@) =~= refreshed_stops(all.take(k), calls@).push(refreshed_stop(s, calls@)));
        fresh.push(refresh_stop(s, calls));
    }
    assert(all.take(all.len() as int) =~= all);
    proof {
        lemma_every_stop_refreshed(all, calls@);
    }
    leg.intermediate_stops = fresh;
}

/// Brings leg `i` of a trip up to date with the real-time calls of its
/// service journey; the other legs, and their order, stay as they were.
pub fn apply_realtime(legs: &mut Vec<Leg>, i: usize, rt: &ServiceJourneyRealtime)
    ensures
        final(legs)@.len() == old(legs)@.len(),
        forall|j: int| 0 <= j < old(legs)@.len() && j != i ==> #[trigger] final(legs)@[j] == old(legs)@[j],
        i < old(legs)@.len() ==> refreshed_leg(old(legs)@[i as int], final(legs)@[i as int], rt.estimated_calls@),
        i >= old(legs)@.len() ==> final(legs)@ == old(legs)@,
{
    if i < legs.len() {
        let mut leg = legs.remove(i);
        update_leg_from_realtime(&mut leg, rt);
        legs.insert(i, leg);
        assert(legs@ =~= old(legs)@.update(i as int, leg));
    }
}

/// The legs, by index, that name a service journey, with that journey's id.
pub open spec fn journey_ids(legs: Seq<Leg>) -> Seq<(usize, String)>
    decreases legs.len(),
{
    if legs.len() == 0 {
        Seq::empty()
    } else {
        let rest = journey_ids(legs.drop_last());
        match legs.last().service_journey_id {
            Some(id) => rest.push(((legs.len() - 1) as usize, id)),
            None => rest,
        }
    }
}

/// The legs, by index, that name a service journey, with that journey's id:
/// the legs whose real-time calls are polled.
pub fn service_journey_ids(legs: &Vec<Leg>) -> (r: Vec<(usize, String)>)
    ensures
        r@ == journey_ids(legs@),
{
    let mut r: Vec<(usize, String)> = Vec::new();
    let mut i: usize = 0;
    while i < legs.len()
        invariant
            i <= legs@.len(),
            r@ == journey_ids(legs@.take(i as int)),
        decreases legs@.len() - i,
    {
        let ghost prefix = legs@.take(i + 1);
        assert(prefix.drop_last() =~= legs@.take(i as int));
        assert(prefix.last() == legs@[i as int]);
        if let Some(id) = &legs[i].service_journey_id {
            r.push((i, copy_string(id)));
        }
        i = i + 1;
    }
    assert(legs@.take(i as int) =~= legs@);
    r
}

/// Every entry of the list of service journeys names a leg of the trip,
/// and that leg carries that service journey: a leg without one is never
/// fetched for, and so never changes.
pub proof fn lemma_journey_ids_point_at_their_legs(legs: Seq<Leg>)
    requires
        legs.len() <= usize::MAX,
    ensures
        forall|k: int| 0 <= k < journey_ids(legs).len() ==> {
            let (i, id) = #[trigger] journey_ids(legs)[k];
            &&& (i as int) < legs.len()
            &&& legs[i as int].service_journey_id == Some(id)
        },
    decreases legs.len(),
{
    if legs.len() > 0 {
        let d = legs.drop_last();
        lemma_journey_ids_point_at_their_legs(d);
        assert forall|k: int| 0 <= k < journey_ids(legs).len() implies {
            let (i, id) = #[trigger] journey_ids(legs)[k];
            &&& (i as int) < legs.len()
            &&& legs[i as int].service_journey_id == Some(id)
        } by {
            if k < journey_ids(d).len() {
                assert(journey_ids(legs)[k] == journey_ids(d)[k]);
                assert(d[journey_ids(d)[k].0 as int] == legs[journey_ids(d)[k].0 as int]);
            } else {
                assert(legs.last() == legs[legs.len() - 1]);
                assert(journey_ids(legs)[k] == ((legs.len() - 1) as usize, legs.last().service_journey_id->0));
            }
        }
    }
}

/// The list of service journeys depends only on which legs carry which
/// service journey, so bringing legs up to date never changes what is
/// fetched next.
pub proof fn lemma_journey_ids_survive_updates(before: Seq<Leg>, after: Seq<Leg>)
    requires
        before.len() == after.len(),
        forall|j: int| 0 <= j < before.len() ==> #[trigger] before[j].service_journey_id == after[j].service_journey_id,
    ensures
        journey_ids(before) == journey_ids(after),
    decreases before.len(),
{
    if before.len() > 0 {
        let (b, a) = (before.drop_last(), after.drop_last());
        assert forall|j: int| 0 <= j < b.len() implies #[trigger] b[j].service_journey_id == a[j].service_journey_id by {
            assert(b[j] == before[j]);
            assert(a[j] == after[j]);
        }
        lemma_journey_ids_survive_updates(b, a);
        assert(before.last().service_journey_id == after.last().service_journey_id);
    }
}

/// Bringing a leg up to date twice with the same calls gives what once did:
/// the departure, the arrival and every intermediate stop.
pub proof fn lemma_realtime_update_is_idempotent(
    calls: Seq<IntermediateStop>,
    origin: Seq<char>,
    destination: Seq<char>,
    departure: String,
    arrival: String,
    stops: Seq<IntermediateStop>,
)
    ensures
        departure_after(calls, origin, departure_after(calls, origin, departure))
            == departure_after(calls, origin, departure),
        arrival_after(calls, destination, arrival_after(calls, destination, arrival))
            == arrival_after(calls, destination, arrival),
        refreshed_stops(refreshed_stops(stops, calls), calls) == refreshed_stops(stops, calls),
{
    lemma_departure_twice(calls, origin, departure);
    lemma_arrival_twice(calls, destination, arrival);
    assert(refreshed_stops(refreshed_stops(stops, calls), calls) =~= refreshed_stops(stops, calls));
}

proof fn lemma_departure_twice(calls: Seq<IntermediateStop>, origin: Seq<char>, d: String)
    ensures
        departure_after(calls, origin, departure_after(calls, origin, d)) == departure_after(calls, origin, d),
    decreases calls.len(),
{
    if calls.len() > 0 {
        lemma_departure_twice(calls.drop_last(), origin, d);
    }
}

proof fn lemma_arrival_twice(calls: Seq<IntermediateStop>, destination: Seq<char>, a: String)
    ensures
        arrival_after(calls, destination, arrival_after(calls, destination, a)) == arrival_after(calls, destination, a),
    decreases calls.len(),
{
    if calls.len() > 0 {
        lemma_arrival_twice(calls.drop_last(), destination, a);
    }
}

/// Calls at none of the leg's stops leave its times as they were.
pub proof fn lemma_unrelated_calls_change_nothing(
    calls: Seq<IntermediateStop>,
    origin: Seq<char>,
    destination: Seq<char>,
    departure: String,
    arrival: String,
    stops: Seq<IntermediateStop>,
)
    requires
        forall|i: int| 0 <= i < calls.len() ==> #[trigger] calls[i].name@ != origin && calls[i].name@ != destination,
        forall|i: int, j: int| 0 <= i < calls.len() && 0 <= j < stops.len() ==> #[trigger] calls[i].name@ != #[trigger] stops[j].name@,
    ensures
        departure_after(calls, origin, departure) == departure,
        arrival_after(calls, destination, arrival) == arrival,
        refreshed_stops(stops, calls) == stops,
    decreases calls.len(),
{
    if calls.len() > 0 {
        let d = calls.drop_last();
        assert forall|i: int, j: int| 0 <= i < d.len() && 0 <= j < stops.len() implies #[trigger] d[i].name@ != #[trigger] stops[j].name@ by {
            assert(d[i] == calls[i]);
        }
        lemma_unrelated_calls_change_nothing(d, origin, destination, departure, arrival, stops);
        assert(calls.last() == calls[calls.len() - 1]);
    }
    assert forall|j: int| 0 <= j < stops.len() implies refreshed_stop(#[trigger] stops[j], calls) == stops[j] by {
        lemma_first_call_at(calls, stops[j].name@, calls.len() as int);
        assert(calls.skip(calls.len() as int).len() == 0);
    }
    assert(refreshed_stops(stops, calls) =~= stops);
}

} // verus!
