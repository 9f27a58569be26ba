//! What the server makes of EnTur's answers: stops out of the stop search,
//! journeys out of the trip planner, real-time calls out of a service
//! journey, and the variables of a trip query.

use vstd::prelude::*;
use vstd::string::StringExecFns;
use crate::model::{
    mode_from_name, parse_mode, IntermediateStop, JourneyRequest, JourneyResult, Leg, LineSummary,
    ServiceJourneyRealtime, Stop, TransportMode, TripPattern,
};

verus! {

/// One place found by the EnTur stop search.
#[derive(Debug, Clone)]
pub struct GeocoderFeature {
    pub id: String,
    pub name: String,
    pub label: Option<String>,
    pub layer: Option<String>,
    pub category: Option<Vec<String>>,
    /// Bit patterns of the point's coordinates, longitude first.
    pub coordinates_bits: Vec<u64>,
}

/// The first category of a feature, if it has any.
pub open spec fn first_category(c: Option<Vec<String>>) -> Option<String> {
    match c {
        Some(v) => if v@.len() > 0 { Some(v@[0]) } else { None },
        None => None,
    }
}

/// The stop a venue found by the stop search stands for: its label when it
/// has one, else its name; the point's coordinates, or zero when the point
/// has fewer than two.
pub open spec fn stop_of_feature(f: GeocoderFeature) -> Stop {
    Stop {
        id: f.id,
        name: match f.label { Some(l) => l, None => f.name },
        lat_bits: if f.coordinates_bits@.len() >= 2 { f.coordinates_bits@[1] } else { 0 },
        lon_bits: if f.coordinates_bits@.len() >= 2 { f.coordinates_bits@[0] } else { 0 },
        quay_id: None,
        category: first_category(f.category),
    }
}

/// Whether a feature is a venue, the only layer the search keeps.
pub open spec fn is_venue(f: GeocoderFeature) -> bool {
    f.layer matches Some(l) && l@ == "venue"@
}

/// The stops for the venues among `fs`, in order.
pub open spec fn venue_stops(fs: Seq<GeocoderFeature>) -> Seq<Stop>
    decreases fs.len(),
{
    if fs.len() == 0 {
        Seq::empty()
    } else {
        let rest = venue_stops(fs.drop_last());
        if is_venue(fs.last()) {
            rest.push(stop_of_feature(fs.last()))
        } else {
            rest
        }
    }
}

/// Every stop the search offers is one of the venues found, read field by
/// field: its id, its label (or name when it has none), latitude from the
/// second coordinate and longitude from the first. Features of other layers
/// are left out, and nothing is added.
pub proof fn lemma_found_stops_are_venues(fs: Seq<GeocoderFeature>)
    ensures
        venue_stops(fs).len() <= fs.len(),
        forall|k: int| #![trigger venue_stops(fs)[k]] 0 <= k < venue_stops(fs).len() ==> exists|i: int| {
            &&& 0 <= i < fs.len()
            &&& (#[trigger] fs[i]).layer matches Some(l) && l@ == "venue"@
            &&& venue_stops(fs)[k].id == fs[i].id
            &&& venue_stops(fs)[k].name == (match fs[i].label { Some(l) => l, None => fs[i].name })
            &&& fs[i].coordinates_bits@.len() >= 2 ==> venue_stops(fs)[k].lat_bits == fs[i].coordinates_bits@[1]
                && venue_stops(fs)[k].lon_bits == fs[i].coordinates_bits@[0]
        },
        (forall|i: int| 0 <= i < fs.len() ==> !is_venue(#[trigger] fs[i])) ==> venue_stops(fs).len() == 0,
    decreases fs.len(),
{
    if fs.len() > 0 {
        let d = fs.drop_last();
        lemma_found_stops_are_venues(d);
        let r = venue_stops(fs);
        assert forall|k: int| #![trigger r[k]] 0 <= k < r.len() implies exists|i: int| {
            &&& 0 <= i < fs.len()
            &&& (#[trigger] fs[i]).layer matches Some(l) && l@ == "venue"@
            &&& r[k].id == fs[i].id
            &&& r[k].name == (match fs[i].label { Some(l) => l, None => fs[i].name })
            &&& fs[i].coordinates_bits@.len() >= 2 ==> r[k].lat_bits == fs[i].coordinates_bits@[1]
                && r[k].lon_bits == fs[i].coordinates_bits@[0]
        } by {
            if k < venue_stops(d).len() {
                let i = choose|i: int| {
                    &&& 0 <= i < d.len()
                    &&& (#[trigger] d[i]).layer matches Some(l) && l@ == "venue"@
                    &&& venue_stops(d)[k].id == d[i].id
                    &&& venue_stops(d)[k].name == (match d[i].label { Some(l) => l, None => d[i].name })
                    &&& d[i].coordinates_bits@.len() >= 2 ==> venue_stops(d)[k].lat_bits == d[i].coordinates_bits@[1]
                        && venue_stops(d)[k].lon_bits == d[i].coordinates_bits@[0]
                };
                assert(d[i] == fs[i]);
                assert(r[k] == venue_stops(d)[k]);
            } else {
                let i = fs.len() - 1;
                assert(fs[i] == fs.last());
                assert(r[k] == stop_of_feature(fs.last()));
            }
        }
        if forall|i: int| 0 <= i < fs.len() ==> !is_venue(#[trigger] fs[i]) {
            assert(!is_venue(fs[fs.len() - 1]));
            assert forall|i: int| 0 <= i < d.len() implies !is_venue(#[trigger] d[i]) by {
                assert(d[i] == fs[i]);
                assert(!is_venue(fs[i]));
            }
        }
    }
}

/// When every feature found is a venue, the search offers one stop for each,
/// in the order found.
pub proof fn lemma_venues_kept_in_order(fs: Seq<GeocoderFeature>)
    requires
        forall|i: int| 0 <= i < fs.len() ==> is_venue(#[trigger] fs[i]),
    ensures
        venue_stops(fs).len() == fs.len(),
        forall|i: int| 0 <= i < fs.len() ==> (#[trigger] venue_stops(fs)[i]).id == fs[i].id,
    decreases fs.len(),
{
    if fs.len() > 0 {
        let d = fs.drop_last();
        assert forall|i: int| 0 <= i < d.len() implies is_venue(#[trigger] d[i]) by {
            assert(d[i] == fs[i]);
        }
        lemma_venues_kept_in_order(d);
        assert(is_venue(fs[fs.len() - 1]));
        assert forall|i: int| 0 <= i < fs.len() implies (#[trigger] venue_stops(fs)[i]).id == fs[i].id by {
            if i < d.len() {
                assert(venue_stops(fs)[i] == venue_stops(d)[i]);
                assert(venue_stops(d)[i].id == d[i].id);
                assert(d[i] == fs[i]);
            }
        }
    }
}

fn first_of(c: Option<Vec<String>>) -> (r: Option<String>)
    ensures
        r == first_category(c),
{
    match c {
        Some(mut v) => {
            if v.len() > 0 {
                let x = v.swap_remove(0);
                Some(x)
            } else {
                None
            }
        },
        None => None,
    }
}

/// The stops for the venues among the features found, in order.
pub fn stops_from_features(features: Vec<GeocoderFeature>) -> (r: Vec<Stop>)
    ensures
        r@ == venue_stops(features@),
{
    let ghost all = features@;
    let mut out: Vec<Stop> = Vec::new();
    let venue = String::from_str("venue");
    for f in it: features
        invariant
            it.seq() == all,
            venue@ == "venue"@,
            out@ == venue_stops(all.take(it.index() as int)),
    {
        let ghost i = it.index() as int;
        assert(all.take(i + 1).drop_last() =~= all.take(i));
        assert(all.take(i + 1).last() == f);
        let keep = match &f.layer {
            Some(l) => *l == venue,
            None => false,
        };
        if keep {
            let (lat_bits, lon_bits) = if f.coordinates_bits.len() >= 2 {
                (f.coordinates_bits[1], f.coordinates_bits[0])
            } else {
                (0, 0)
            };
            let name = match f.label {
                Some(l) => l,
                None => f.name,
            };
            out.push(Stop {
                id: f.id,
                name,
                lat_bits,
                lon_bits,
                quay_id: None,
                category: first_of(f.category),
            });
        }
    }
    assert(all.take(all.len() as int) =~= all);
    out
}

/// `parts` joined with `sep` between them.
pub open spec fn joined(parts: Seq<Seq<char>>, sep: Seq<char>) -> Seq<char>
    decreases parts.len(),
{
    if parts.len() == 0 {
        Seq::empty()
    } else if parts.len() == 1 {
        parts[0]
    } else {
        joined(parts.drop_last(), sep) + sep + parts.last()
    }
}

/// The text of each message.
pub open spec fn message_texts(msgs: Seq<String>) -> Seq<Seq<char>> {
    msgs.map_values(|m: String| m@)
}

/// The error reported when the planner answers with errors.
pub open spec fn graphql_error_text(msgs: Seq<String>) -> Seq<char> {
    "GraphQL errors: "@ + joined(message_texts(msgs), ", "@)
}

/// The planner's messages are reported after "GraphQL errors: ", in the
/// order given, separated by ", ".
pub proof fn lemma_graphql_error_lists_messages_in_order(a: String, b: String)
    ensures
        graphql_error_text(seq![a]) == "GraphQL errors: "@ + a@,
        graphql_error_text(seq![a, b]) == "GraphQL errors: "@ + a@ + ", "@ + b@,
{
    assert(message_texts(seq![a]) =~= seq![a@]);
    assert(message_texts(seq![a, b]) =~= seq![a@, b@]);
    assert(seq![a@, b@].drop_last() =~= seq![a@]);
}

/// The error reported when the planner answers with errors.
pub fn graphql_error(msgs: &Vec<String>) -> (r: String)
    ensures
        r@ == graphql_error_text(msgs@),
{
    let mut out = String::from_str("GraphQL errors: ");
    let ghost start = out@;
    let mut i: usize = 0;
    while i < msgs.len()
        invariant
            i <= msgs@.len(),
            start == "GraphQL errors: "@,
            out@ == start + joined(message_texts(msgs@.take(i as int)), ", "@),
        decreases msgs@.len() - i,
    {
        let ghost before = message_texts(msgs@.take(i as int));
        let ghost after = message_texts(msgs@.take(i + 1));
        assert(after.drop_last() =~= before);
        assert(after.last() == msgs@[i as int]@);
        if i > 0 {
            out.append(", ");
        }
        out.append(msgs[i].as_str());
        proof {
            if i == 0 {
                assert(after.len() == 1);
                assert(out@ =~= start + joined(after, ", "@));
            } else {
                assert(out@ =~= start + joined(after, ", "@));
            }
        }
        i = i + 1;
    }
    assert(msgs@.take(i as int) =~= msgs@);
    out
}

/// A place a leg starts or ends at.
#[derive(Debug, Clone)]
pub struct RawPlace {
    pub name: String,
    pub latitude_bits: u64,
    pub longitude_bits: u64,
}

/// A stop call as the planner reports it.
#[derive(Debug, Clone)]
pub struct RawCall {
    pub stop_place_name: String,
    pub aimed_arrival_time: Option<String>,
    pub expected_arrival_time: Option<String>,
    pub aimed_departure_time: Option<String>,
    pub expected_departure_time: Option<String>,
}

/// The call a leg departs from, with the destination shown on the vehicle.
#[derive(Debug, Clone)]
pub struct RawEstimatedCall {
    pub destination_front_text: Option<String>,
}

/// A leg as the planner reports it.
#[derive(Debug, Clone)]
pub struct RawLeg {
    pub mode: String,
    pub from_place: RawPlace,
    pub to_place: RawPlace,
    pub expected_start_time: String,
    pub expected_end_time: String,
    pub aimed_start_time: Option<String>,
    pub aimed_end_time: Option<String>,
    pub line: Option<LineSummary>,
    pub from_estimated_call: Option<RawEstimatedCall>,
    pub intermediate_estimated_calls: Option<Vec<RawCall>>,
}

/// A trip pattern as the planner reports it.
#[derive(Debug, Clone)]
pub struct RawTripPattern {
    pub start_time: String,
    pub end_time: String,
    pub duration: i64,
    pub legs: Vec<RawLeg>,
}

/// The trip planner's answer: the trip patterns found, and any errors.
#[derive(Debug, Clone)]
pub struct TripResponse {
    pub trip_patterns: Option<Vec<RawTripPattern>>,
    pub errors: Option<Vec<String>>,
}

/// The stop a call stands for.
pub open spec fn stop_of_call(c: RawCall) -> IntermediateStop {
    IntermediateStop {
        name: c.stop_place_name,
        aimed_arrival: c.aimed_arrival_time,
        expected_arrival: c.expected_arrival_time,
        aimed_departure: c.aimed_departure_time,
        expected_departure: c.expected_departure_time,
    }
}

/// The stops for a list of calls.
pub open spec fn stops_of_calls(cs: Seq<RawCall>) -> Seq<IntermediateStop> {
    cs.map_values(|c: RawCall| stop_of_call(c))
}


/// Each call of the planner becomes the stop at the same place in the list,
/// with its name and its aimed and expected times unchanged.
pub proof fn lemma_calls_become_stops_in_place(cs: Seq<RawCall>)
    ensures
        stops_of_calls(cs).len() == cs.len(),
        forall|i: int| 0 <= i < cs.len() ==> {
            let st = #[trigger] stops_of_calls(cs)[i];
            &&& st.name == cs[i].stop_place_name
            &&& st.aimed_arrival == cs[i].aimed_arrival_time
            &&& st.expected_arrival == cs[i].expected_arrival_time
            &&& st.aimed_departure == cs[i].aimed_departure_time
            &&& st.expected_departure == cs[i].expected_departure_time
        },
{
}

/// The destination shown for a leg.
pub open spec fn destination_of(ec: Option<RawEstimatedCall>) -> Option<String> {
    match ec {
        Some(e) => e.destination_front_text,
        None => None,
    }
}

/// Whether `leg` is what the planner's `raw` leg becomes.
pub open spec fn leg_from_raw(leg: Leg, raw: RawLeg) -> bool {
    &&& leg.mode == mode_from_name(raw.mode@)
    &&& leg.from_name == raw.from_place.name
    &&& leg.to_name == raw.to_place.name
    &&& leg.from_lat_bits == raw.from_place.latitude_bits
    &&& leg.from_lon_bits == raw.from_place.longitude_bits
    &&& leg.to_lat_bits == raw.to_place.latitude_bits
    &&& leg.to_lon_bits == raw.to_place.longitude_bits
    &&& leg.expected_start == raw.expected_start_time
    &&& leg.expected_end == raw.expected_end_time
    &&& leg.aimed_start == raw.aimed_start_time
    &&& leg.aimed_end == raw.aimed_end_time
    &&& leg.line == raw.line
    &&& leg.destination == destination_of(raw.from_estimated_call)
    &&& leg.intermediate_stops@ == (match raw.intermediate_estimated_calls {
        Some(cs) => stops_of_calls(cs@),
        None => Seq::empty(),
    })
    &&& leg.service_journey_id is None
}

/// Whether `p` is what the planner's `raw` trip pattern becomes.
pub open spec fn pattern_from_raw(p: TripPattern, raw: RawTripPattern) -> bool {
    &&& p.start_time == raw.start_time
    &&& p.end_time == raw.end_time
    &&& p.duration == raw.duration
    &&& p.legs@.len() == raw.legs@.len()
    &&& forall|i: int| 0 <= i < p.legs@.len() ==> leg_from_raw(#[trigger] p.legs@[i], raw.legs@[i])
}

/// Whether `r` holds exactly what the planner's trip patterns become.
pub open spec fn result_from_raw(r: JourneyResult, raws: Seq<RawTripPattern>) -> bool {
    &&& r.trip_patterns@.len() == raws.len()
    &&& forall|i: int| 0 <= i < raws.len() ==> pattern_from_raw(#[trigger] r.trip_patterns@[i], raws[i])
}

/// Every leg of a planned journey keeps the planner's times and places, in
/// the planner's order: it departs at the raw leg's expected start time and
/// arrives at its expected end time, with the aimed times beside them.
pub proof fn lemma_journey_legs_keep_planner_times(r: JourneyResult, raws: Seq<RawTripPattern>)
    requires
        result_from_raw(r, raws),
    ensures
        r.trip_patterns@.len() == raws.len(),
        forall|p: int| 0 <= p < raws.len() ==> (#[trigger] r.trip_patterns@[p]).legs@.len() == raws[p].legs@.len(),
        forall|p: int, l: int| 0 <= p < raws.len() && 0 <= l < raws[p].legs@.len() ==> {
            let planned = #[trigger] r.trip_patterns@[p].legs@[l];
            let given = raws[p].legs@[l];
            &&& planned.expected_start == given.expected_start_time
            &&& planned.expected_end == given.expected_end_time
            &&& planned.aimed_start == given.aimed_start_time
            &&& planned.aimed_end == given.aimed_end_time
            &&& planned.from_name == given.from_place.name
            &&& planned.to_name == given.to_place.name
        },
{
    assert forall|p: int| 0 <= p < raws.len() implies (#[trigger] r.trip_patterns@[p]).legs@.len() == raws[p].legs@.len() by {
        assert(pattern_from_raw(r.trip_patterns@[p], raws[p]));
    }
    assert forall|p: int, l: int| 0 <= p < raws.len() && 0 <= l < raws[p].legs@.len() implies {
        let planned = #[trigger] r.trip_patterns@[p].legs@[l];
        let given = raws[p].legs@[l];
        &&& planned.expected_start == given.expected_start_time
        &&& planned.expected_end == given.expected_end_time
        &&& planned.aimed_start == given.aimed_start_time
        &&& planned.aimed_end == given.aimed_end_time
        &&& planned.from_name == given.from_place.name
        &&& planned.to_name == given.to_place.name
    } by {
        assert(pattern_from_raw(r.trip_patterns@[p], raws[p]));
        assert(leg_from_raw(r.trip_patterns@[p].legs@[l], raws[p].legs@[l]));
    }
}

fn stops_from_calls(calls: Vec<RawCall>) -> (r: Vec<IntermediateStop>)
    ensures
        r@ == stops_of_calls(calls@),
{
    let ghost all = calls@;
    let mut out: Vec<IntermediateStop> = Vec::new();
    for c in it: calls
        invariant
            it.seq() == all,
            out@ == stops_of_calls(all.take(it.index() as int)),
    {
        let ghost i = it.index() as int;
        assert(stops_of_calls(all.take(i + 1)) =~= stops_of_calls(all.take(i)).push(stop_of_call(c)));
        out.push(IntermediateStop {
            name: c.stop_place_name,
            aimed_arrival: c.aimed_arrival_time,
            expected_arrival: c.expected_arrival_time,
            aimed_departure: c.aimed_departure_time,
            expected_departure: c.expected_departure_time,
        });
    }
    assert(all.take(all.len() as int) =~= all);
    out
}

fn leg_of(raw: RawLeg) -> (leg: Leg)
    ensures
        leg_from_raw(leg, raw),
{
    let mode = parse_mode(raw.mode.as_str());
    let destination = match raw.from_estimated_call {
        Some(ec) => ec.destination_front_text,
        None => None,
    };
    let intermediate_stops = match raw.intermediate_estimated_calls {
        Some(cs) => stops_from_calls(cs),
        None => Vec::new(),
    };
    Leg {
        mode,
        from_name: raw.from_place.name,
        to_name: raw.to_place.name,
        from_lat_bits: raw.from_place.latitude_bits,
        from_lon_bits: raw.from_place.longitude_bits,
        to_lat_bits: raw.to_place.latitude_bits,
        to_lon_bits: raw.to_place.longitude_bits,
        expected_start: raw.expected_start_time,
        expected_end: raw.expected_end_time,
        aimed_start: raw.aimed_start_time,
        aimed_end: raw.aimed_end_time,
        line: raw.line,
        destination,
        intermediate_stops,
        service_journey_id: None,
    }
}

fn pattern_of(raw: RawTripPattern) -> (p: TripPattern)
    ensures
        pattern_from_raw(p, raw),
{
    let ghost all = raw.legs@;
    let mut legs: Vec<Leg> = Vec::new();
    for l in it: raw.legs
        invariant
            it.seq() == all,
            legs@.len() == it.index(),
            forall|j: int| 0 <= j < legs@.len() ==> leg_from_raw(#[trigger] legs@[j], all[j]),
    {
        let ghost i = it.index() as int;
        assert(all[i] == l);
        legs.push(leg_of(l));
    }
    TripPattern {
        start_time: raw.start_time,
        end_time: raw.end_time,
        duration: raw.duration,
        legs,
    }
}

/// The journeys in the planner's answer, or why there are none: the planner
/// reported errors, or sent no data.
pub fn journey_from_response(resp: TripResponse) -> (r: Result<JourneyResult, String>)
    ensures
        match resp.errors {
            Some(msgs) => r matches Err(e) && e@ == graphql_error_text(msgs@),
            None => match resp.trip_patterns {
                None => r matches Err(e) && e@ == "No data in journey planner response"@,
                Some(raws) => r matches Ok(j) && result_from_raw(j, raws@),
            },
        },
        resp.errors is None && resp.trip_patterns is Some ==> (r matches Ok(j) && {
            let raws = resp.trip_patterns->0@;
            forall|p: int, l: int| 0 <= p < raws.len() && 0 <= l < raws[p].legs@.len() ==> {
                &&& j.trip_patterns@[p].legs@.len() == raws[p].legs@.len()
                &&& (#[trigger] j.trip_patterns@[p].legs@[l]).expected_start == raws[p].legs@[l].expected_start_time
                &&& j.trip_patterns@[p].legs@[l].expected_end == raws[p].legs@[l].expected_end_time
            }
        }),
{
    if let Some(msgs) = resp.errors {
        return Err(graphql_error(&msgs));
    }
    match resp.trip_patterns {
        None => Err(String::from_str("No data in journey planner response")),
        Some(raws) => {
            let ghost all = raws@;
            let mut patterns: Vec<TripPattern> = Vec::new();
            for p in it: raws
                invariant
                    it.seq() == all,
                    patterns@.len() == it.index(),
                    forall|j: int| 0 <= j < patterns@.len() ==> pattern_from_raw(#[trigger] patterns@[j], all[j]),
            {
                let ghost i = it.index() as int;
                assert(all[i] == p);
                patterns.push(pattern_of(p));
            }
            let r = JourneyResult { trip_patterns: patterns };
            proof {
                lemma_journey_legs_keep_planner_times(r, all);
            }
            Ok(r)
        },
    }
}

/// The planner's answer to a service-journey query.
#[derive(Debug, Clone)]
pub struct ServiceJourneyResponse {
    pub data: Option<ServiceJourneyData>,
    pub errors: Option<Vec<String>>,
}

/// The service journey found, if any, with its calls.
#[derive(Debug, Clone)]
pub struct ServiceJourneyData {
    pub estimated_calls: Option<Vec<RawCall>>,
}

/// The real-time calls in the planner's answer, or why there are none.
pub fn realtime_from_response(resp: ServiceJourneyResponse) -> (r: Result<ServiceJourneyRealtime, String>)
    ensures
        match resp.errors {
            Some(msgs) => r matches Err(e) && e@ == graphql_error_text(msgs@),
            None => match resp.data {
                None => r matches Err(e) && e@ == "No data in service journey response"@,
                Some(d) => match d.estimated_calls {
                    None => r matches Err(e) && e@ == "Service journey not found"@,
                    Some(cs) => r matches Ok(rt) && rt.estimated_calls@ == stops_of_calls(cs@),
                },
            },
        },
{
    if let Some(msgs) = resp.errors {
        return Err(graphql_error(&msgs));
    }
    match resp.data {
        None => Err(String::from_str("No data in service journey response")),
        Some(d) => match d.estimated_calls {
            None => Err(String::from_str("Service journey not found")),
            Some(cs) => Ok(ServiceJourneyRealtime { estimated_calls: stops_from_calls(cs) }),
        },
    }
}

/// The variables of a trip query to the planner.
#[derive(Debug, Clone)]
pub struct TripVariables {
    /// The stop place to travel from.
    pub from: String,
    /// The stop place to travel to.
    pub to: String,
    pub date_time: Option<String>,
    pub num_trip_patterns: Option<u32>,
    /// The minimum transfer time in seconds.
    pub transfer_slack: Option<u32>,
}

/// Whether a transfer time in minutes can be given in seconds in 32 bits.
pub open spec fn transfer_fits(min_transfer_minutes: Option<u32>) -> bool {
    min_transfer_minutes matches Some(m) ==> m * 60 <= u32::MAX
}

/// The variables of a trip query: five trip patterns unless another number
/// is asked for, and the transfer time in seconds.
pub fn trip_variables(
    from_id: &str,
    to_id: &str,
    date_time: Option<String>,
    num_results: Option<u32>,
    min_transfer_minutes: Option<u32>,
) -> (v: TripVariables)
    requires
        transfer_fits(min_transfer_minutes),
    ensures
        v.from@ == from_id@,
        v.to@ == to_id@,
        v.date_time == date_time,
        v.num_trip_patterns == (match num_results {
            Some(n) => Some(n),
            None => Some(5u32),
        }),
        v.transfer_slack == (match min_transfer_minutes {
            Some(m) => Some((m * 60) as u32),
            None => None::<u32>,
        }),
{
    TripVariables {
        from: from_id.to_owned(),
        to: to_id.to_owned(),
        date_time,
        num_trip_patterns: match num_results {
            Some(n) => Some(n),
            None => Some(5),
        },
        transfer_slack: match min_transfer_minutes {
            Some(m) => Some(m * 60),
            None => None,
        },
    }
}

/// The journey search the browser sends: five results, and the minimum
/// transfer time saved in the app data.
pub fn journey_request(from_id: &str, to_id: &str, date_time: Option<&str>, min_transfer_minutes: u32) -> (r: JourneyRequest)
    ensures
        r.from@ == from_id@,
        r.to@ == to_id@,
        match date_time {
            Some(d) => r.date_time matches Some(t) && t@ == d@,
            None => r.date_time is None,
        },
        r.num_results == Some(5u32),
        r.min_transfer_minutes == Some(min_transfer_minutes),
{
    JourneyRequest {
        from: from_id.to_owned(),
        to: to_id.to_owned(),
        date_time: match date_time {
            Some(d) => Some(d.to_owned()),
            None => None,
        },
        num_results: Some(5),
        min_transfer_minutes: Some(min_transfer_minutes),
    }
}

} // verus!
