//! The decisions of the search form: what the stop field shows and asks for
//! as the user types, focuses, leaves and picks; and which time the time
//! picker holds; and when the page searches and what it then shows. The
//! browser performs the effects and reports the events.

use vstd::prelude::*;
use vstd::string::StringExecFns;
use crate::clock_text::{active_after_input, chosen_timestamp, hhmm_to_iso, keep_active_period, minutes_fit, LocalClock};
use crate::model::{JourneyResult, Stop, TimePeriod};
use crate::text::copy_string;

verus! {

/// What the stop field holds.
pub struct StopSearchState {
    /// The text in the field.
    pub input_value: String,
    /// The stops found for the text.
    pub suggestions: Vec<Stop>,
    pub show_suggestions: bool,
    pub show_recents: bool,
    /// The timer of the search waiting to run, if any.
    pub debounce_handle: Option<i32>,
    /// A stop was picked and the text not changed since.
    pub selected: bool,
    pub has_typed: bool,
}

/// The stop field as plain values.
#[verifier::ext_equal]
pub struct StopSearchView {
    pub input: Seq<char>,
    pub suggestions: Seq<Stop>,
    pub show_suggestions: bool,
    pub show_recents: bool,
    pub debounce_handle: Option<i32>,
    pub selected: bool,
    pub has_typed: bool,
}

impl View for StopSearchState {
    type V = StopSearchView;

    open spec fn view(&self) -> StopSearchView {
        StopSearchView {
            input: self.input_value@,
            suggestions: self.suggestions@,
            show_suggestions: self.show_suggestions,
            show_recents: self.show_recents,
            debounce_handle: self.debounce_handle,
            selected: self.selected,
            has_typed: self.has_typed,
        }
    }
}

/// What happens to the stop field.
pub enum StopSearchEvent {
    /// The text was changed to this.
    Input(String),
    /// The search was put off on this timer.
    SearchScheduled(i32),
    /// The put-off search ended: the stops found, or `None` when it failed.
    SearchFinished(Option<Vec<Stop>>),
    Focus,
    Blur,
    /// The short pause after leaving the field has passed.
    HideElapsed,
    /// A stop was picked from a list.
    Select(Stop),
}

/// An event as plain values.
pub enum StopSearchEventView {
    Input(Seq<char>),
    SearchScheduled(i32),
    SearchFinished(Option<Seq<Stop>>),
    Focus,
    Blur,
    HideElapsed,
    Select(Stop),
}

impl View for StopSearchEvent {
    type V = StopSearchEventView;

    open spec fn view(&self) -> StopSearchEventView {
        match self {
            StopSearchEvent::Input(s) => StopSearchEventView::Input(s@),
            StopSearchEvent::SearchScheduled(h) => StopSearchEventView::SearchScheduled(*h),
            StopSearchEvent::SearchFinished(r) => StopSearchEventView::SearchFinished(match r {
                Some(v) => Some(v@),
                None => None,
            }),
            StopSearchEvent::Focus => StopSearchEventView::Focus,
            StopSearchEvent::Blur => StopSearchEventView::Blur,
            StopSearchEvent::HideElapsed => StopSearchEventView::HideElapsed,
            StopSearchEvent::Select(s) => StopSearchEventView::Select(*s),
        }
    }
}

/// What the browser is asked to do after an event.
pub struct StopSearchEffects {
    /// Cancel this timer.
    pub cancel_timer: Option<i32>,
    /// Search for this text after a pause of 300 ms.
    pub schedule_search: Option<String>,
    /// Hide the lists after a pause of 150 ms.
    pub schedule_hide: bool,
    /// Remember this stop among the recent ones and hand it to the form.
    pub chosen: Option<Stop>,
}

/// The effects as plain values.
#[verifier::ext_equal]
pub struct StopSearchEffectsView {
    pub cancel_timer: Option<i32>,
    pub schedule_search: Option<Seq<char>>,
    pub schedule_hide: bool,
    pub chosen: Option<Stop>,
}

impl View for StopSearchEffects {
    type V = StopSearchEffectsView;

    open spec fn view(&self) -> StopSearchEffectsView {
        StopSearchEffectsView {
            cancel_timer: self.cancel_timer,
            schedule_search: match self.schedule_search {
                Some(s) => Some(s@),
                None => None,
            },
            schedule_hide: self.schedule_hide,
            chosen: self.chosen,
        }
    }
}

/// No effect.
pub open spec fn no_effects() -> StopSearchEffectsView {
    StopSearchEffectsView { cancel_timer: None, schedule_search: None, schedule_hide: false, chosen: None }
}

/// The number of bytes of a text in UTF-8.
pub open spec fn byte_len(s: Seq<char>) -> nat {
    vstd::utf8::encode_utf8(s).len()
}

/// How the stop field answers an event: its next state and the effects asked for.
pub open spec fn stop_search_step(v: StopSearchView, e: StopSearchEventView) -> (StopSearchView, StopSearchEffectsView) {
    match e {
        StopSearchEventView::Input(text) => {
            let typed = StopSearchView {
                input: text,
                selected: false,
                has_typed: true,
                show_recents: false,
                ..v
            };
            if byte_len(text) < 2 {
                (
                    StopSearchView { suggestions: Seq::empty(), show_suggestions: false, ..typed },
                    StopSearchEffectsView { cancel_timer: v.debounce_handle, ..no_effects() },
                )
            } else {
                (
                    typed,
                    StopSearchEffectsView { cancel_timer: v.debounce_handle, schedule_search: Some(text), ..no_effects() },
                )
            }
        },
        StopSearchEventView::SearchScheduled(h) => (StopSearchView { debounce_handle: Some(h), ..v }, no_effects()),
        StopSearchEventView::SearchFinished(r) => match r {
            Some(stops) => (StopSearchView { suggestions: stops, show_suggestions: true, ..v }, no_effects()),
            None => (StopSearchView { suggestions: Seq::empty(), ..v }, no_effects()),
        },
        StopSearchEventView::Focus => {
            if v.selected {
                (v, no_effects())
            } else if v.input.len() == 0 || !v.has_typed {
                (StopSearchView { has_typed: false, show_recents: true, show_suggestions: false, ..v }, no_effects())
            } else if v.suggestions.len() > 0 {
                (StopSearchView { show_suggestions: true, ..v }, no_effects())
            } else {
                (v, no_effects())
            }
        },
        StopSearchEventView::Blur => (v, StopSearchEffectsView { schedule_hide: true, ..no_effects() }),
        StopSearchEventView::HideElapsed => (StopSearchView { show_recents: false, show_suggestions: false, ..v }, no_effects()),
        StopSearchEventView::Select(stop) => (
            StopSearchView {
                input: stop.name@,
                show_suggestions: false,
                show_recents: false,
                selected: true,
                has_typed: false,
                ..v
            },
            StopSearchEffectsView { chosen: Some(stop), ..no_effects() },
        ),
    }
}

/// Whether a text takes two or more bytes in UTF-8.
fn at_least_two_bytes(s: &str) -> (r: bool)
    ensures
        r == (byte_len(s@) >= 2),
{
    let v = crate::text::chars_of(s);
    proof {
        if v@.len() > 0 {
            crate::clock_text::lemma_encode_utf8_len_first(v@);
            if v@.len() > 1 {
                crate::clock_text::lemma_encode_utf8_len_first(v@.drop_first());
            } else {
                assert(v@.drop_first().len() == 0);
                assert(vstd::utf8::encode_utf8(v@.drop_first()) == Seq::<u8>::empty());
            }
        } else {
            assert(vstd::utf8::encode_utf8(v@) == Seq::<u8>::empty());
        }
    }
    if v.len() == 0 {
        false
    } else if v.len() >= 2 {
        true
    } else {
        crate::text::char_utf8_width(v[0]) >= 2
    }
}

fn nothing() -> (e: StopSearchEffects)
    ensures
        e@ == no_effects(),
{
    StopSearchEffects { cancel_timer: None, schedule_search: None, schedule_hide: false, chosen: None }
}

impl StopSearchState {
    /// The field as it first shows, holding `display_value`.
    pub fn new(display_value: String) -> (s: Self)
        ensures
            s@ == (StopSearchView {
                input: display_value@,
                suggestions: Seq::empty(),
                show_suggestions: false,
                show_recents: false,
                debounce_handle: None,
                selected: false,
                has_typed: false,
            }),
    {
        StopSearchState {
            input_value: display_value,
            suggestions: Vec::new(),
            show_suggestions: false,
            show_recents: false,
            debounce_handle: None,
            selected: false,
            has_typed: false,
        }
    }

    /// Takes in one event and says what the browser should do.
    pub fn handle(&mut self, event: StopSearchEvent) -> (effects: StopSearchEffects)
        ensures
            (final(self)@, effects@) == stop_search_step(old(self)@, event@),
            event@ == StopSearchEventView::Focus && !old(self).selected && !old(self).has_typed
                ==> final(self).show_recents && !final(self).show_suggestions
                    && final(self).input_value == old(self).input_value,
    {
        let ghost ev = event@;
        let ghost before = self@;
        let effects = match event {
            StopSearchEvent::Input(text) => {
                let cancel = self.debounce_handle;
                self.selected = false;
                self.has_typed = true;
                self.show_recents = false;
                if !at_least_two_bytes(text.as_str()) {
                    self.input_value = text;
                    self.suggestions = Vec::new();
                    self.show_suggestions = false;
                    StopSearchEffects { cancel_timer: cancel, ..nothing() }
                } else {
                    let search = copy_string(&text);
                    self.input_value = text;
                    StopSearchEffects { cancel_timer: cancel, schedule_search: Some(search), ..nothing() }
                }
            },
            StopSearchEvent::SearchScheduled(h) => {
                self.debounce_handle = Some(h);
                nothing()
            },
            StopSearchEvent::SearchFinished(r) => {
                match r {
                    Some(stops) => {
                        self.suggestions = stops;
                        self.show_suggestions = true;
                    },
                    None => {
                        self.suggestions = Vec::new();
                    },
                }
                nothing()
            },
            StopSearchEvent::Focus => {
                if self.selected {
                } else if self.input_value.as_str().is_empty() || !self.has_typed {
                    self.has_typed = false;
                    self.show_recents = true;
                    self.show_suggestions = false;
                } else if self.suggestions.len() > 0 {
                    self.show_suggestions = true;
                }
                nothing()
            },
            StopSearchEvent::Blur => StopSearchEffects { schedule_hide: true, ..nothing() },
            StopSearchEvent::HideElapsed => {
                self.show_recents = false;
                self.show_suggestions = false;
                nothing()
            },
            StopSearchEvent::Select(stop) => {
                self.input_value = copy_string(&stop.name);
                self.show_suggestions = false;
                self.show_recents = false;
                self.selected = true;
                self.has_typed = false;
                StopSearchEffects { chosen: Some(stop), ..nothing() }
            },
        };
        let ghost expected = stop_search_step(before, ev);
        assert(self@ =~= expected.0);
        assert(effects@ =~= expected.1);
        effects
    }
}

/// Focusing a field that holds no chosen stop opens the recent stops and
/// closes the suggestions when the field is empty or has not been typed in
/// since it was filled, whatever text it holds; it keeps that text and asks
/// for nothing.
pub proof fn lemma_focus_before_typing_opens_recents(v: StopSearchView)
    requires
        !v.selected,
        v.input.len() == 0 || !v.has_typed,
    ensures
        ({
            let (after, fx) = stop_search_step(v, StopSearchEventView::Focus);
            &&& after.show_recents
            &&& !after.show_suggestions
            &&& !after.has_typed
            &&& after.input == v.input
            &&& fx == no_effects()
        }),
{
}

/// Leaving the field asks for the lists to be hidden after a delay and
/// changes nothing yet; when the delay is over both lists are closed and the
/// text stays.
pub proof fn lemma_blur_hides_lists_later(v: StopSearchView)
    ensures
        ({
            let (after, fx) = stop_search_step(v, StopSearchEventView::Blur);
            &&& after == v
            &&& fx.schedule_hide && fx.chosen is None && fx.schedule_search is None
        }),
        ({
            let (after, fx) = stop_search_step(v, StopSearchEventView::HideElapsed);
            &&& !after.show_recents && !after.show_suggestions
            &&& after.input == v.input && after.selected == v.selected
            &&& fx == no_effects()
        }),
{
}

/// A search that comes back shows what it found as the suggestions; a
/// failed one clears them.
pub proof fn lemma_finished_search_shows_results(v: StopSearchView, found: Seq<Stop>)
    ensures
        ({
            let (after, fx) = stop_search_step(v, StopSearchEventView::SearchFinished(Some(found)));
            &&& after.suggestions == found && after.show_suggestions
            &&& after.input == v.input
            &&& fx == no_effects()
        }),
        stop_search_step(v, StopSearchEventView::SearchFinished(None)).0.suggestions.len() == 0,
{
}

/// After a stop is picked both lists are closed, the field shows the stop's
/// name and the stop is handed on; focusing the field again then changes
/// nothing and asks for nothing.
pub proof fn lemma_pick_closes_lists(v: StopSearchView, stop: Stop)
    ensures
        ({
            let (after, fx) = stop_search_step(v, StopSearchEventView::Select(stop));
            &&& !after.show_suggestions && !after.show_recents
            &&& after.input == stop.name@
            &&& fx.chosen == Some(stop)
            &&& stop_search_step(after, StopSearchEventView::Focus) == (after, no_effects())
        }),
{
}

/// Text shorter than two bytes searches for nothing and shows no
/// suggestions; any change of text cancels the search that was waiting.
pub proof fn lemma_short_text_searches_nothing(v: StopSearchView, text: Seq<char>)
    ensures
        ({
            let (after, fx) = stop_search_step(v, StopSearchEventView::Input(text));
            &&& fx.cancel_timer == v.debounce_handle
            &&& (byte_len(text) < 2 ==> fx.schedule_search is None && !after.show_suggestions
                && after.suggestions.len() == 0)
            &&& (byte_len(text) >= 2 ==> fx.schedule_search == Some(text))
        }),
{
}

/// What the time picker holds.
pub struct TimePickerState {
    /// The chosen instant, or `None` for now.
    pub selected_time: Option<String>,
    /// The id of the highlighted period.
    pub active_period: Option<String>,
    pub show_adjust: bool,
    /// The "HH:MM" in the time field.
    pub time_value: String,
}

impl TimePickerState {
    /// The picker as it first shows: now, with the clock's "HH:MM" in the field.
    pub fn new(current_hhmm: String) -> (s: Self)
        ensures
            s.selected_time is None,
            s.active_period is None,
            !s.show_adjust,
            s.time_value == current_hhmm,
    {
        TimePickerState { selected_time: None, active_period: None, show_adjust: false, time_value: current_hhmm }
    }

    /// Going back to now clears the chosen time and the highlighted period.
    pub fn select_now(&mut self)
        ensures
            final(self).selected_time is None,
            final(self).active_period is None,
            !final(self).show_adjust,
            final(self).time_value == old(self).time_value,
    {
        self.selected_time = None;
        self.active_period = None;
        self.show_adjust = false;
    }

    /// Picking a period chooses its start and highlights it.
    pub fn select_period(&mut self, period: &TimePeriod, clock: &LocalClock)
        requires
            minutes_fit(period.start@, *clock),
        ensures
            final(self).time_value == period.start,
            final(self).selected_time matches Some(t) && t@ == chosen_timestamp(period.start@, *clock),
            final(self).active_period == Some(period.id),
            final(self).show_adjust,
    {
        self.time_value = copy_string(&period.start);
        self.selected_time = Some(hhmm_to_iso(period.start.as_str(), clock));
        self.active_period = Some(copy_string(&period.id));
        self.show_adjust = true;
    }

    /// Typing a time chooses it, and drops the highlight when the time falls
    /// outside the highlighted period.
    pub fn time_input(&mut self, typed: String, periods: &Vec<TimePeriod>, clock: &LocalClock)
        requires
            minutes_fit(typed@, *clock),
        ensures
            final(self).time_value == typed,
            final(self).selected_time matches Some(t) && t@ == chosen_timestamp(typed@, *clock),
            final(self).active_period == active_after_input(old(self).active_period, periods@, typed@),
            final(self).show_adjust == old(self).show_adjust,
    {
        self.selected_time = Some(hhmm_to_iso(typed.as_str(), clock));
        let mut active: Option<String> = None;
        std::mem::swap(&mut active, &mut self.active_period);
        self.active_period = keep_active_period(active, periods, typed.as_str());
        self.time_value = typed;
    }

    /// Whether the row for adjusting the time shows.
    pub fn shows_adjust(&self) -> (r: bool)
        ensures
            r == (self.show_adjust || self.selected_time is Some),
    {
        self.show_adjust || self.selected_time.is_some()
    }
}

/// Whether a journey search can start: both stops are chosen.
pub fn can_search(from: &Option<Stop>, to: &Option<Stop>) -> (r: bool)
    ensures
        r == (from is Some && to is Some),
{
    from.is_some() && to.is_some()
}

/// What the search page shows about its journey search.
pub struct SearchStatus {
    /// A search is under way.
    pub loading: bool,
    /// Why the last search failed.
    pub error: Option<String>,
    /// The journeys the last search found.
    pub results: Option<JourneyResult>,
}

impl SearchStatus {
    /// The page before any search: nothing loading, found or failed.
    pub fn new() -> (s: Self)
        ensures
            !s.loading,
            s.error is None,
            s.results is None,
    {
        SearchStatus { loading: false, error: None, results: None }
    }

    /// Starts a search when both stops are chosen: the page shows that it is
    /// loading, drops the last error and results, and is handed the ids of
    /// the two stops to search between. Without both stops nothing happens.
    pub fn begin(&mut self, from: &Option<Stop>, to: &Option<Stop>) -> (r: Option<(String, String)>)
        ensures
            match (*from, *to) {
                (Some(f), Some(t)) => {
                    &&& r == Some((f.id, t.id))
                    &&& final(self).loading
                    &&& final(self).error is None
                    &&& final(self).results is None
                },
                _ => r is None && *final(self) == *old(self),
            },
    {
        match (from, to) {
            (Some(f), Some(t)) => {
                self.loading = true;
                self.error = None;
                self.results = None;
                Some((copy_string(&f.id), copy_string(&t.id)))
            },
            _ => None,
        }
    }

    /// Takes in how a search ended: the journeys found, or why it failed.
    pub fn finish(&mut self, outcome: Result<JourneyResult, String>)
        ensures
            !final(self).loading,
            match outcome {
                Ok(j) => final(self).results == Some(j) && final(self).error == old(self).error,
                Err(e) => final(self).error == Some(e) && final(self).results == old(self).results,
            },
    {
        match outcome {
            Ok(j) => self.results = Some(j),
            Err(e) => self.error = Some(e),
        }
        self.loading = false;
    }
}

} // verus!
