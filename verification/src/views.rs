//! What the screens show of journeys and saved trips: the texts and flags
//! each view is drawn from.

use vstd::prelude::*;
use vstd::string::StringExecFns;
use crate::clock_text::{clock_cut_splits_char, clock_of, format_time, is_delayed, iso_millis, parse_iso_ms};
use crate::model::{mode_symbol, IntermediateStop, Leg, LineSummary, Stop, TransportMode, TripPattern, TripType};
use crate::text::{copy_opt_string, copy_string, push_signed_decimal, signed_decimal};

verus! {

/// Whether the clock of every given timestamp can be cut out without
/// splitting a character.
pub open spec fn clock_readable(t: Seq<char>) -> bool {
    !clock_cut_splits_char(t)
}

/// Whether the clock of an optional timestamp can be cut out.
pub open spec fn opt_clock_readable(t: Option<String>) -> bool {
    t matches Some(s) ==> clock_readable(s@)
}

/// "(HH:MM)" for an aimed time shown next to a delayed one.
pub open spec fn bracketed_clock(t: Seq<char>) -> Seq<char> {
    "("@ + clock_of(t) + ")"@
}

/// The line and where it heads: the public code, then the destination shown
/// on the vehicle, or the line's name when there is none.
pub open spec fn line_text(l: LineSummary, destination: Option<String>) -> Seq<char> {
    l.public_code@ + " "@ + match destination {
        Some(d) => d@,
        None => l.name@,
    }
}

fn line_label_of(l: &LineSummary, destination: &Option<String>) -> (r: String)
    ensures
        r@ == line_text(*l, *destination),
{
    let mut s = copy_string(&l.public_code);
    s.append(" ");
    match destination {
        Some(d) => s.append(d.as_str()),
        None => s.append(l.name.as_str()),
    }
    s
}

/// What one leg shows in a search result.
#[derive(Debug, Clone)]
pub struct LegSummary {
    pub mode_icon: String,
    pub time_start: String,
    pub time_end: String,
    pub delayed_start: bool,
    pub delayed_end: bool,
    /// The aimed departure as "(HH:MM)", shown only when delayed.
    pub aimed_start: Option<String>,
    /// The aimed arrival as "(HH:MM)", shown only when delayed.
    pub aimed_end: Option<String>,
    pub line_info: String,
    pub from_name: String,
    pub to_name: String,
}

/// Whether the times of a leg can all be shown.
pub open spec fn leg_times_readable(leg: Leg) -> bool {
    &&& clock_readable(leg.expected_start@)
    &&& clock_readable(leg.expected_end@)
    &&& opt_clock_readable(leg.aimed_start)
    &&& opt_clock_readable(leg.aimed_end)
}

/// The aimed time to show beside an expected one: only when they differ.
pub open spec fn aimed_note(aimed: Option<String>, expected: Seq<char>) -> Option<Seq<char>> {
    match aimed {
        Some(a) => if a@ != expected { Some(bracketed_clock(a@)) } else { None },
        None => None,
    }
}

fn aimed_note_of(aimed: &Option<String>, expected: &String) -> (r: Option<String>)
    requires
        opt_clock_readable(*aimed),
    ensures
        match aimed_note(*aimed, expected@) {
            Some(n) => r matches Some(s) && s@ == n,
            None => r is None,
        },
{
    if is_delayed(aimed, expected.as_str()) {
        match aimed {
            Some(a) => {
                let mut s = String::from_str("(");
                let t = format_time(a.as_str());
                s.append(t.as_str());
                s.append(")");
                Some(s)
            },
            None => None,
        }
    } else {
        None
    }
}

/// What one leg shows in a search result.
pub fn leg_summary(leg: &Leg) -> (r: LegSummary)
    requires
        leg_times_readable(*leg),
    ensures
        r.mode_icon@ == mode_symbol(leg.mode),
        r.time_start@ == clock_of(leg.expected_start@),
        r.time_end@ == clock_of(leg.expected_end@),
        r.delayed_start == (leg.aimed_start matches Some(a) && a@ != leg.expected_start@),
        r.delayed_end == (leg.aimed_end matches Some(a) && a@ != leg.expected_end@),
        match aimed_note(leg.aimed_start, leg.expected_start@) {
            Some(n) => r.aimed_start matches Some(s) && s@ == n,
            None => r.aimed_start is None,
        },
        match aimed_note(leg.aimed_end, leg.expected_end@) {
            Some(n) => r.aimed_end matches Some(s) && s@ == n,
            None => r.aimed_end is None,
        },
        r.line_info@ == match leg.line {
            Some(l) => line_text(l, leg.destination),
            None => Seq::<char>::empty(),
        },
        r.from_name == leg.from_name,
        r.to_name == leg.to_name,
{
    let line_info = match &leg.line {
        Some(l) => line_label_of(l, &leg.destination),
        None => String::new(),
    };
    LegSummary {
        mode_icon: leg.mode.to_string(),
        time_start: format_time(leg.expected_start.as_str()),
        time_end: format_time(leg.expected_end.as_str()),
        delayed_start: is_delayed(&leg.aimed_start, leg.expected_start.as_str()),
        delayed_end: is_delayed(&leg.aimed_end, leg.expected_end.as_str()),
        aimed_start: aimed_note_of(&leg.aimed_start, &leg.expected_start),
        aimed_end: aimed_note_of(&leg.aimed_end, &leg.expected_end),
        line_info,
        from_name: copy_string(&leg.from_name),
        to_name: copy_string(&leg.to_name),
    }
}

/// Whole minutes in a duration given in seconds, rounded toward zero as
/// integer division does.
pub open spec fn whole_minutes(seconds: int) -> int {
    if seconds >= 0 {
        seconds / 60
    } else {
        -((-seconds) / 60)
    }
}

/// The whole minutes of a duration leave less than a minute over, rounding
/// toward zero: a trip of 1799 seconds shows 29 minutes, never 30.
pub proof fn lemma_whole_minutes_round_toward_zero(seconds: int)
    ensures
        seconds >= 0 ==> 0 <= seconds - whole_minutes(seconds) * 60 < 60,
        seconds < 0 ==> 0 <= whole_minutes(seconds) * 60 - seconds < 60,
{
}

/// Whole minutes in a duration given in seconds, rounded toward zero.
pub fn duration_minutes(seconds: i64) -> (m: i64)
    ensures
        m == whole_minutes(seconds as int),
{
    if seconds >= 0 {
        seconds / 60
    } else {
        let a: u64 = ((-(seconds + 1)) as u64) + 1;
        let q = a / 60;
        -(q as i64)
    }
}

/// What the card of a trip pattern shows at its top.
#[derive(Debug, Clone)]
pub struct TripHeader {
    pub start: String,
    pub end: String,
    pub duration_mins: i64,
}

/// Whether the start and end of a trip pattern can be shown.
pub open spec fn pattern_times_readable(p: TripPattern) -> bool {
    clock_readable(p.start_time@) && clock_readable(p.end_time@)
}

/// What the card of a trip pattern shows at its top.
pub fn trip_header(p: &TripPattern) -> (r: TripHeader)
    requires
        pattern_times_readable(*p),
    ensures
        r.start@ == clock_of(p.start_time@),
        r.end@ == clock_of(p.end_time@),
        r.duration_mins == whole_minutes(p.duration as int),
{
    TripHeader {
        start: format_time(p.start_time.as_str()),
        end: format_time(p.end_time.as_str()),
        duration_mins: duration_minutes(p.duration),
    }
}

/// "HH:MM → HH:MM  ·  N min" for the full view of a trip.
pub open spec fn trip_summary_text(p: TripPattern) -> Seq<char> {
    clock_of(p.start_time@) + " → "@ + clock_of(p.end_time@) + "  ·  "@
        + signed_decimal(whole_minutes(p.duration as int)) + " min"@
}

/// "HH:MM → HH:MM  ·  N min" for the full view of a trip.
pub fn trip_summary(p: &TripPattern) -> (r: String)
    requires
        pattern_times_readable(*p),
    ensures
        r@ == trip_summary_text(*p),
{
    let h = trip_header(p);
    let mut s = h.start;
    s.append(" → ");
    s.append(h.end.as_str());
    s.append("  ·  ");
    push_signed_decimal(&mut s, h.duration_mins);
    s.append(" min");
    s
}

/// One stop on the timeline of a leg.
#[derive(Debug, Clone)]
pub struct TimelineStopInfo {
    pub name: String,
    /// The time to show: expected, else aimed, else empty.
    pub time: String,
    pub aimed_time: Option<String>,
    pub is_origin: bool,
    pub is_destination: bool,
}

/// The timeline of a leg: a walk, or a ride with its stops.
#[derive(Debug, Clone)]
pub enum LegTimelineView {
    Walk {
        to_name: String,
        start_time: String,
        end_time: String,
    },
    Ride {
        mode_icon: String,
        line_label: String,
        stop_count: usize,
        stops: Vec<TimelineStopInfo>,
    },
}

/// The time shown at an intermediate stop: the expected arrival, else the
/// aimed one, else nothing.
pub open spec fn stop_time(s: IntermediateStop) -> Seq<char> {
    match s.expected_arrival {
        Some(t) => t@,
        None => match s.aimed_arrival {
            Some(t) => t@,
            None => Seq::empty(),
        },
    }
}

/// Whether `info` is the timeline entry of an intermediate stop.
pub open spec fn intermediate_entry(info: TimelineStopInfo, s: IntermediateStop) -> bool {
    &&& info.name == s.name
    &&& info.time@ == stop_time(s)
    &&& info.aimed_time == s.aimed_arrival
    &&& !info.is_origin
    &&& !info.is_destination
}

/// The label of a ride: the line and where it heads, or the mode's symbol
/// when there is no line.
pub open spec fn ride_label(leg: Leg) -> Seq<char> {
    match leg.line {
        Some(l) => line_text(l, leg.destination),
        None => mode_symbol(leg.mode),
    }
}

/// Whether `v` is the timeline the view draws for `leg`.
pub open spec fn timeline_of(v: LegTimelineView, leg: Leg) -> bool {
    if leg.mode == TransportMode::Foot {
        v matches LegTimelineView::Walk { to_name, start_time, end_time } && {
            &&& to_name == leg.to_name
            &&& start_time@ == clock_of(leg.expected_start@)
            &&& end_time@ == clock_of(leg.expected_end@)
        }
    } else {
        v matches LegTimelineView::Ride { mode_icon, line_label, stop_count, stops } && {
            let n = leg.intermediate_stops@.len() as int;
            &&& mode_icon@ == mode_symbol(leg.mode)
            &&& line_label@ == ride_label(leg)
            &&& stop_count == n + 2
            &&& stops@.len() == n + 2
            &&& stops@[0].name == leg.from_name
            &&& stops@[0].time == leg.expected_start
            &&& stops@[0].aimed_time == leg.aimed_start
            &&& stops@[0].is_origin && !stops@[0].is_destination
            &&& forall|i: int| 0 <= i < n ==> intermediate_entry(#[trigger] stops@[i + 1], leg.intermediate_stops@[i])
            &&& stops@[n + 1].name == leg.to_name
            &&& stops@[n + 1].time == leg.expected_end
            &&& stops@[n + 1].aimed_time == leg.aimed_end
            &&& !stops@[n + 1].is_origin && stops@[n + 1].is_destination
        }
    }
}

/// On the timeline of a ride, each intermediate stop shows its expected
/// (real-time) arrival when it has one; only without one does it show the
/// aimed arrival, and with neither it shows nothing. The aimed arrival is
/// kept beside it, so a late stop shows its delay.
pub proof fn lemma_timeline_prefers_expected_arrival(v: LegTimelineView, leg: Leg)
    requires
        timeline_of(v, leg),
        leg.mode != TransportMode::Foot,
    ensures
        v matches LegTimelineView::Ride { stops, .. } && stops@.len() == leg.intermediate_stops@.len() + 2
            && forall|i: int| 0 <= i < leg.intermediate_stops@.len() ==> {
                let s = leg.intermediate_stops@[i];
                let e = #[trigger] stops@[i + 1];
                &&& (s.expected_arrival matches Some(t) ==> e.time@ == t@)
                &&& (s.expected_arrival is None && s.aimed_arrival is Some ==> e.time@ == s.aimed_arrival->0@)
                &&& (s.expected_arrival is None && s.aimed_arrival is None ==> e.time@.len() == 0)
                &&& e.aimed_time == s.aimed_arrival
                &&& e.name == s.name
            },
{
    if let LegTimelineView::Ride { stops, .. } = v {
        assert forall|i: int| 0 <= i < leg.intermediate_stops@.len() implies {
            let s = leg.intermediate_stops@[i];
            let e = #[trigger] stops@[i + 1];
            &&& (s.expected_arrival matches Some(t) ==> e.time@ == t@)
            &&& (s.expected_arrival is None && s.aimed_arrival is Some ==> e.time@ == s.aimed_arrival->0@)
            &&& (s.expected_arrival is None && s.aimed_arrival is None ==> e.time@.len() == 0)
            &&& e.aimed_time == s.aimed_arrival
            &&& e.name == s.name
        } by {
            assert(intermediate_entry(stops@[i + 1], leg.intermediate_stops@[i]));
        }
    }
}

fn intermediate_info(s: &IntermediateStop) -> (r: TimelineStopInfo)
    ensures
        intermediate_entry(r, *s),
{
    let time = match &s.expected_arrival {
        Some(t) => copy_string(t),
        None => match &s.aimed_arrival {
            Some(t) => copy_string(t),
            None => String::new(),
        },
    };
    TimelineStopInfo {
        name: copy_string(&s.name),
        time,
        aimed_time: copy_opt_string(&s.aimed_arrival),
        is_origin: false,
        is_destination: false,
    }
}

/// The timeline the route view draws for a leg.
pub fn leg_timeline(leg: &Leg) -> (v: LegTimelineView)
    requires
        leg.mode == TransportMode::Foot ==> clock_readable(leg.expected_start@) && clock_readable(leg.expected_end@),
        leg.intermediate_stops@.len() + 2 <= usize::MAX,
    ensures
        timeline_of(v, *leg),
        leg.mode != TransportMode::Foot ==> (v matches LegTimelineView::Ride { stops, .. }
            && forall|i: int| 0 <= i < leg.intermediate_stops@.len()
                && (#[trigger] leg.intermediate_stops@[i]).expected_arrival is Some
                ==> stops@[i + 1].time@ == leg.intermediate_stops@[i].expected_arrival->0@),
{
    if leg.mode == TransportMode::Foot {
        return LegTimelineView::Walk {
            to_name: copy_string(&leg.to_name),
            start_time: format_time(leg.expected_start.as_str()),
            end_time: format_time(leg.expected_end.as_str()),
        };
    }
    let line_label = match &leg.line {
        Some(l) => line_label_of(l, &leg.destination),
        None => leg.mode.to_string(),
    };
    let n = leg.intermediate_stops.len();
    let mut stops: Vec<TimelineStopInfo> = Vec::new();
    stops.push(TimelineStopInfo {
        name: copy_string(&leg.from_name),
        time: copy_string(&leg.expected_start),
        aimed_time: copy_opt_string(&leg.aimed_start),
        is_origin: true,
        is_destination: false,
    });
    let mut i: usize = 0;
    while i < n
        invariant
            i <= n,
            n == leg.intermediate_stops@.len(),
            stops@.len() == i + 1,
            stops@[0].name == leg.from_name,
            stops@[0].time == leg.expected_start,
            stops@[0].aimed_time == leg.aimed_start,
            stops@[0].is_origin && !stops@[0].is_destination,
            forall|j: int| 0 <= j < i ==> intermediate_entry(#[trigger] stops@[j + 1], leg.intermediate_stops@[j]),
        decreases n - i,
    {
        stops.push(intermediate_info(&leg.intermediate_stops[i]));
        i = i + 1;
    }
    stops.push(TimelineStopInfo {
        name: copy_string(&leg.to_name),
        time: copy_string(&leg.expected_end),
        aimed_time: copy_opt_string(&leg.aimed_end),
        is_origin: false,
        is_destination: true,
    });
    let v = LegTimelineView::Ride {
        mode_icon: leg.mode.to_string(),
        line_label,
        stop_count: n + 2,
        stops,
    };
    proof {
        lemma_timeline_prefers_expected_arrival(v, *leg);
    }
    v
}

/// What one stop of a timeline shows.
#[derive(Debug, Clone)]
pub struct TimelineStopView {
    /// The stop's instant in milliseconds since the epoch, zero when unknown.
    pub time_ms: i64,
    pub time_display: String,
    /// The aimed time differs from the one shown.
    pub delayed: bool,
    /// The aimed time as "HH:MM", shown only when delayed.
    pub aimed_display: Option<String>,
}

/// What one stop of a timeline shows.
pub fn timeline_stop_view(time: &str, aimed_time: &Option<String>) -> (r: TimelineStopView)
    requires
        clock_readable(time@),
        opt_clock_readable(*aimed_time),
    ensures
        r.time_ms == iso_millis(time@),
        r.time_display@ == clock_of(time@),
        r.delayed == (aimed_time matches Some(a) && a@ != time@),
        match aimed_time {
            Some(a) => if a@ != time@ {
                r.aimed_display matches Some(d) && d@ == clock_of(a@)
            } else {
                r.aimed_display is None
            },
            None => r.aimed_display is None,
        },
{
    let delayed = is_delayed(aimed_time, time);
    let aimed_display = if delayed {
        match aimed_time {
            Some(a) => Some(format_time(a.as_str())),
            None => None,
        }
    } else {
        None
    };
    TimelineStopView {
        time_ms: parse_iso_ms(time),
        time_display: format_time(time),
        delayed,
        aimed_display,
    }
}

/// The style classes of a timeline stop.
pub open spec fn stop_class_text(is_origin: bool, is_destination: bool, passed: bool) -> Seq<char> {
    "timeline-stop"@
        + (if is_origin { " timeline-stop--origin"@ } else { Seq::empty() })
        + (if is_destination { " timeline-stop--destination"@ } else { Seq::empty() })
        + (if passed { " timeline-stop--passed"@ } else { Seq::empty() })
}

/// The style classes of a timeline stop.
pub fn timeline_stop_class(is_origin: bool, is_destination: bool, passed: bool) -> (r: String)
    ensures
        r@ == stop_class_text(is_origin, is_destination, passed),
{
    let mut cls = String::from_str("timeline-stop");
    if is_origin {
        cls.append(" timeline-stop--origin");
    }
    if is_destination {
        cls.append(" timeline-stop--destination");
    }
    if passed {
        cls.append(" timeline-stop--passed");
    }
    assert(cls@ =~= stop_class_text(is_origin, is_destination, passed));
    cls
}

/// "From → To" for a saved trip type.
pub fn trip_type_route(t: &TripType) -> (r: String)
    ensures
        r@ == t.from_stop.name@ + " → "@ + t.to_stop.name@,
{
    let mut s = copy_string(&t.from_stop.name);
    s.append(" → ");
    s.append(t.to_stop.name.as_str());
    s
}

/// The stop a search page starts with from its address: one with the given
/// id and name and no coordinates, or none when the id is empty.
pub fn initial_stop(id: String, name: String) -> (r: Option<Stop>)
    ensures
        id@.len() == 0 <==> r is None,
        r matches Some(s) ==> {
            &&& s.id == id
            &&& s.name == name
            &&& s.lat_bits == 0
            &&& s.lon_bits == 0
            &&& s.quay_id is None
            &&& s.category is None
        },
{
    if id.as_str().is_empty() {
        None
    } else {
        Some(Stop { id, name, lat_bits: 0, lon_bits: 0, quay_id: None, category: None })
    }
}

} // verus!
