//! The data model shared by the server and the browser app: stops, saved trip
//! types, journeys with their legs, time periods and the persisted app data.
//!
//! Coordinates are carried as the IEEE-754 bit patterns of the degrees, so
//! that they pass through unchanged; no rule of the library reads them.

use vstd::prelude::*;
use vstd::string::StringExecFns;
use crate::text::push_char;

verus! {

/// A stop place, as found by the stop search.
#[derive(Debug, Clone, PartialEq)]
pub struct Stop {
    /// NSR StopPlace ID, e.g. "NSR:StopPlace:59872"
    pub id: String,
    pub name: String,
    /// Bit pattern of the latitude in degrees.
    pub lat_bits: u64,
    /// Bit pattern of the longitude in degrees.
    pub lon_bits: u64,
    /// Optional quay ID for direction-specific selection
    pub quay_id: Option<String>,
    /// e.g. "onstreetBus", "railStation"
    pub category: Option<String>,
}

/// A search the user saved under a name and an icon.
#[derive(Debug, Clone, PartialEq)]
pub struct TripType {
    pub id: String,
    pub name: String,
    pub icon: String,
    pub from_stop: Stop,
    pub to_stop: Stop,
    pub line_preferences: Vec<LinePreference>,
}

#[derive(Debug, Clone, PartialEq)]
pub struct LinePreference {
    pub line_id: String,
    pub line_name: String,
    pub line_code: String,
    pub preferred: bool,
}

/// A journey search as the browser sends it to the server.
#[derive(Debug, Clone)]
pub struct JourneyRequest {
    pub from: String,
    pub to: String,
    pub date_time: Option<String>,
    pub num_results: Option<u32>,
    /// Minimum transfer gap in minutes (sent as transferSlack in seconds to EnTur)
    pub min_transfer_minutes: Option<u32>,
}

#[derive(Debug, Clone)]
pub struct JourneyResult {
    pub trip_patterns: Vec<TripPattern>,
}

#[derive(Debug, Clone)]
pub struct TripPattern {
    /// ISO-8601 with timezone
    pub start_time: String,
    pub end_time: String,
    /// Duration in seconds
    pub duration: i64,
    pub legs: Vec<Leg>,
}

#[derive(Debug, Clone)]
pub struct Leg {
    pub mode: TransportMode,
    pub from_name: String,
    pub to_name: String,
    /// Bit pattern of the departure latitude in degrees.
    pub from_lat_bits: u64,
    /// Bit pattern of the departure longitude in degrees.
    pub from_lon_bits: u64,
    /// Bit pattern of the arrival latitude in degrees.
    pub to_lat_bits: u64,
    /// Bit pattern of the arrival longitude in degrees.
    pub to_lon_bits: u64,
    /// ISO-8601 expected departure
    pub expected_start: String,
    /// ISO-8601 expected arrival
    pub expected_end: String,
    /// Aimed (scheduled) departure
    pub aimed_start: Option<String>,
    /// Aimed (scheduled) arrival
    pub aimed_end: Option<String>,
    pub line: Option<LineSummary>,
    /// Human-readable destination (e.g. "Ljabru")
    pub destination: Option<String>,
    /// Intermediate stops with times (transit legs only)
    pub intermediate_stops: Vec<IntermediateStop>,
    /// The service journey that runs this leg, for real-time updates.
    pub service_journey_id: Option<String>,
}

#[derive(Debug, Clone, PartialEq)]
pub struct LineSummary {
    pub id: String,
    pub public_code: String,
    pub name: String,
}

/// An intermediate stop along a transit leg with arrival/departure times.
#[derive(Debug, Clone, PartialEq)]
pub struct IntermediateStop {
    pub name: String,
    /// ISO-8601 aimed (scheduled) arrival
    pub aimed_arrival: Option<String>,
    /// ISO-8601 expected (real-time) arrival
    pub expected_arrival: Option<String>,
    /// ISO-8601 aimed (scheduled) departure
    pub aimed_departure: Option<String>,
    /// ISO-8601 expected (real-time) departure
    pub expected_departure: Option<String>,
}

/// The real-time calls of one service journey.
#[derive(Debug, Clone)]
pub struct ServiceJourneyRealtime {
    pub estimated_calls: Vec<IntermediateStop>,
}

#[derive(Debug, Clone, Copy, PartialEq, Eq, Structural)]
pub enum TransportMode {
    Bus,
    Tram,
    Rail,
    Metro,
    Water,
    Air,
    Coach,
    Foot,
    Unknown,
}

/// The symbol shown for each mode of transport.
pub open spec fn mode_symbol(m: TransportMode) -> Seq<char> {
    match m {
        TransportMode::Bus => "🚌"@,
        TransportMode::Tram => "🚊"@,
        TransportMode::Rail => "🚆"@,
        TransportMode::Metro => "🚇"@,
        TransportMode::Water => "⛴️"@,
        TransportMode::Air => "✈️"@,
        TransportMode::Coach => "🚍"@,
        TransportMode::Foot => "🚶"@,
        TransportMode::Unknown => "🚏"@,
    }
}

impl TransportMode {
    /// The symbol shown for this mode of transport.
    pub fn to_string(&self) -> (s: String)
        ensures
            s@ == mode_symbol(*self),
    {
        match self {
            TransportMode::Bus => String::from_str("🚌"),
            TransportMode::Tram => String::from_str("🚊"),
            TransportMode::Rail => String::from_str("🚆"),
            TransportMode::Metro => String::from_str("🚇"),
            TransportMode::Water => String::from_str("⛴️"),
            TransportMode::Air => String::from_str("✈️"),
            TransportMode::Coach => String::from_str("🚍"),
            TransportMode::Foot => String::from_str("🚶"),
            TransportMode::Unknown => String::from_str("🚏"),
        }
    }
}

/// `c` with ASCII capitals turned into small letters.
pub open spec fn ascii_lower(c: char) -> char {
    if 'A' <= c && c <= 'Z' {
        ((c as u32) + 32) as char
    } else {
        c
    }
}

/// `s` with ASCII capitals turned into small letters.
pub open spec fn ascii_lowercase(s: Seq<char>) -> Seq<char> {
    s.map_values(|c: char| ascii_lower(c))
}

/// The mode named by `s`, compared without regard to case. Matching ASCII
/// letters without case gives the same answer as comparing the full Unicode
/// lowercase of `s`, since no other character lowercases into one of these
/// names.
pub open spec fn mode_from_name(s: Seq<char>) -> TransportMode {
    let l = ascii_lowercase(s);
    if l == "bus"@ {
        TransportMode::Bus
    } else if l == "tram"@ {
        TransportMode::Tram
    } else if l == "rail"@ {
        TransportMode::Rail
    } else if l == "metro"@ {
        TransportMode::Metro
    } else if l == "water"@ {
        TransportMode::Water
    } else if l == "air"@ {
        TransportMode::Air
    } else if l == "coach"@ {
        TransportMode::Coach
    } else if l == "foot"@ {
        TransportMode::Foot
    } else {
        TransportMode::Unknown
    }
}

/// Capital ASCII letters make no difference to the mode a name gives.
pub proof fn lemma_mode_ignores_case(s: Seq<char>, t: Seq<char>)
    requires
        ascii_lowercase(s) == ascii_lowercase(t),
    ensures
        mode_from_name(s) == mode_from_name(t),
{
}

fn lower_char(c: char) -> (r: char)
    ensures
        r == ascii_lower(c),
{
    if 'A' <= c && c <= 'Z' {
        let b = c as u8;
        let r = (b + 32) as char;
        r
    } else {
        c
    }
}

/// The transport mode that the journey planner names `s`.
pub fn parse_mode(s: &str) -> (m: TransportMode)
    ensures
        m == mode_from_name(s@),
{
    let mut lowered = String::new();
    let mut i: usize = 0;
    let v = crate::text::chars_of(s);
    while i < v.len()
        invariant
            v@ == s@,
            i <= v@.len(),
            lowered@ == ascii_lowercase(v@.take(i as int)),
        decreases v@.len() - i,
    {
        push_char(&mut lowered, lower_char(v[i]));
        assert(ascii_lowercase(v@.take(i + 1)) =~= ascii_lowercase(v@.take(i as int)).push(ascii_lower(v@[i as int])));
        i = i + 1;
    }
    assert(v@.take(i as int) =~= v@);
    if lowered == String::from_str("bus") {
        TransportMode::Bus
    } else if lowered == String::from_str("tram") {
        TransportMode::Tram
    } else if lowered == String::from_str("rail") {
        TransportMode::Rail
    } else if lowered == String::from_str("metro") {
        TransportMode::Metro
    } else if lowered == String::from_str("water") {
        TransportMode::Water
    } else if lowered == String::from_str("air") {
        TransportMode::Air
    } else if lowered == String::from_str("coach") {
        TransportMode::Coach
    } else if lowered == String::from_str("foot") {
        TransportMode::Foot
    } else {
        TransportMode::Unknown
    }
}

/// A named part of the day that the time picker offers.
#[derive(Debug, Clone)]
pub struct TimePeriod {
    pub id: String,
    pub name: String,
    pub icon: String,
    /// Start of period as "HH:MM"
    pub start: String,
    /// End of period as "HH:MM"
    pub end: String,
}

/// Whether `p` has exactly these fields.
pub open spec fn period_is(
    p: TimePeriod,
    id: Seq<char>,
    name: Seq<char>,
    icon: Seq<char>,
    start: Seq<char>,
    end: Seq<char>,
) -> bool {
    &&& p.id@ == id
    &&& p.name@ == name
    &&& p.icon@ == icon
    &&& p.start@ == start
    &&& p.end@ == end
}

/// The six periods offered before the user changes anything.
pub open spec fn default_periods_are(v: Seq<TimePeriod>) -> bool {
    &&& v.len() == 6
    &&& period_is(v[0], "morning"@, "Morgen"@, "🌅"@, "06:30"@, "09:00"@)
    &&& period_is(v[1], "mid-morning"@, "Formiddag"@, "☀️"@, "09:00"@, "11:30"@)
    &&& period_is(v[2], "lunch"@, "Lunsj"@, "🍽️"@, "11:30"@, "13:00"@)
    &&& period_is(v[3], "afternoon"@, "Ettermiddag"@, "🌤️"@, "13:00"@, "15:30"@)
    &&& period_is(v[4], "end-of-work"@, "Fra jobb"@, "🏠"@, "15:00"@, "17:30"@)
    &&& period_is(v[5], "evening"@, "Kveld"@, "🌙"@, "18:00"@, "22:00"@)
}

fn period(id: &str, name: &str, icon: &str, start: &str, end: &str) -> (p: TimePeriod)
    ensures
        period_is(p, id@, name@, icon@, start@, end@),
{
    TimePeriod {
        id: String::from_str(id),
        name: String::from_str(name),
        icon: String::from_str(icon),
        start: String::from_str(start),
        end: String::from_str(end),
    }
}

impl TimePeriod {
    /// The periods offered before the user changes anything.
    pub fn defaults() -> (v: Vec<TimePeriod>)
        ensures
            default_periods_are(v@),
    {
        let mut v: Vec<TimePeriod> = Vec::new();
        v.push(period("morning", "Morgen", "🌅", "06:30", "09:00"));
        v.push(period("mid-morning", "Formiddag", "☀️", "09:00", "11:30"));
        v.push(period("lunch", "Lunsj", "🍽️", "11:30", "13:00"));
        v.push(period("afternoon", "Ettermiddag", "🌤️", "13:00", "15:30"));
        v.push(period("end-of-work", "Fra jobb", "🏠", "15:00", "17:30"));
        v.push(period("evening", "Kveld", "🌙", "18:00", "22:00"));
        v
    }
}

pub const DEFAULT_MIN_TRANSFER_MINUTES: u32 = 5;

/// Everything the browser app keeps in local storage.
#[derive(Debug, Clone)]
pub struct AppData {
    pub version: u32,
    pub trip_types: Vec<TripType>,
    pub time_periods: Vec<TimePeriod>,
    pub min_transfer_minutes: u32,
    /// Recently chosen stops, most recent first.
    pub recent_stops: Vec<Stop>,
}

/// The minimum transfer time used when stored data names none.
pub fn default_min_transfer() -> (m: u32)
    ensures
        m == DEFAULT_MIN_TRANSFER_MINUTES,
{
    DEFAULT_MIN_TRANSFER_MINUTES
}

impl Default for AppData {
    fn default() -> (d: Self)
        ensures
            d.version == 1,
            d.trip_types@.len() == 0,
            default_periods_are(d.time_periods@),
            d.min_transfer_minutes == DEFAULT_MIN_TRANSFER_MINUTES,
            d.recent_stops@.len() == 0,
    {
        AppData {
            version: 1,
            trip_types: Vec::new(),
            time_periods: TimePeriod::defaults(),
            min_transfer_minutes: DEFAULT_MIN_TRANSFER_MINUTES,
            recent_stops: Vec::new(),
        }
    }
}

} // verus!
