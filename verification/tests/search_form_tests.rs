use kyss::clock_text::LocalClock;
use kyss::model::{JourneyResult, Stop, TimePeriod};
use kyss::search_form::{can_search, SearchStatus, StopSearchEvent, StopSearchState, TimePickerState};

fn stop(id: &str, name: &str) -> Stop {
    Stop { id: id.to_string(), name: name.to_string(), lat_bits: 0, lon_bits: 0, quay_id: None, category: None }
}

#[test]
fn typing_short_text_clears_suggestions() {
    let mut s = StopSearchState::new(String::new());
    s.handle(StopSearchEvent::SearchFinished(Some(vec![stop("1", "a")])));
    assert!(s.show_suggestions);
    let fx = s.handle(StopSearchEvent::Input("a".to_string()));
    assert_eq!(fx.schedule_search, None);
    assert!(!s.show_suggestions);
    assert!(s.suggestions.is_empty());
    assert!(s.has_typed);
    assert_eq!(s.input_value, "a");
}

#[test]
fn typing_schedules_search_and_cancels_previous() {
    let mut s = StopSearchState::new(String::new());
    let fx = s.handle(StopSearchEvent::Input("St".to_string()));
    assert_eq!(fx.schedule_search.as_deref(), Some("St"));
    assert_eq!(fx.cancel_timer, None);
    s.handle(StopSearchEvent::SearchScheduled(17));
    let fx = s.handle(StopSearchEvent::Input("Sto".to_string()));
    assert_eq!(fx.cancel_timer, Some(17));
    assert_eq!(fx.schedule_search.as_deref(), Some("Sto"));
    // One character of two bytes is enough to search.
    let fx = s.handle(StopSearchEvent::Input("ø".to_string()));
    assert_eq!(fx.schedule_search.as_deref(), Some("ø"));
}

#[test]
fn search_results_show_or_clear() {
    let mut s = StopSearchState::new(String::new());
    s.handle(StopSearchEvent::SearchFinished(Some(vec![stop("1", "a"), stop("2", "b")])));
    assert_eq!(s.suggestions.len(), 2);
    assert!(s.show_suggestions);
    s.handle(StopSearchEvent::SearchFinished(None));
    assert!(s.suggestions.is_empty());
    assert!(s.show_suggestions);
}

#[test]
fn focus_on_empty_field_shows_recents() {
    let mut s = StopSearchState::new(String::new());
    s.handle(StopSearchEvent::Focus);
    assert!(s.show_recents);
    assert!(!s.show_suggestions);
    assert!(!s.has_typed);
}

#[test]
fn focus_after_typing_shows_suggestions() {
    let mut s = StopSearchState::new(String::new());
    s.handle(StopSearchEvent::Input("Storo".to_string()));
    s.handle(StopSearchEvent::SearchFinished(Some(vec![stop("1", "Storo")])));
    s.handle(StopSearchEvent::HideElapsed);
    assert!(!s.show_suggestions);
    s.handle(StopSearchEvent::Focus);
    assert!(s.show_suggestions);
    assert!(!s.show_recents);
}

#[test]
fn blur_asks_to_hide_later() {
    let mut s = StopSearchState::new(String::new());
    s.handle(StopSearchEvent::Focus);
    let fx = s.handle(StopSearchEvent::Blur);
    assert!(fx.schedule_hide);
    assert!(s.show_recents);
    s.handle(StopSearchEvent::HideElapsed);
    assert!(!s.show_recents && !s.show_suggestions);
}

#[test]
fn picking_a_stop_closes_lists_and_hands_it_on() {
    let mut s = StopSearchState::new(String::new());
    s.handle(StopSearchEvent::Input("Sto".to_string()));
    s.handle(StopSearchEvent::SearchFinished(Some(vec![stop("1", "Storo")])));
    let fx = s.handle(StopSearchEvent::Select(stop("1", "Storo")));
    assert_eq!(fx.chosen, Some(stop("1", "Storo")));
    assert_eq!(s.input_value, "Storo");
    assert!(s.selected && !s.has_typed);
    assert!(!s.show_suggestions && !s.show_recents);
    let fx = s.handle(StopSearchEvent::Focus);
    assert!(!s.show_suggestions && !s.show_recents);
    assert_eq!(fx.chosen, None);
}

fn clock() -> LocalClock {
    LocalClock {
        year: 2024,
        month: 6,
        day: 1,
        hours: 7,
        minutes: 0,
        timezone_offset_minutes: -120,
        tomorrow_year: 2024,
        tomorrow_month: 6,
        tomorrow_day: 2,
    }
}

#[test]
fn time_picker_period_then_input() {
    let periods = TimePeriod::defaults();
    let mut t = TimePickerState::new("07:00".to_string());
    assert!(!t.shows_adjust());
    t.select_period(&periods[0], &clock());
    assert_eq!(t.time_value, "06:30");
    assert_eq!(t.selected_time.as_deref(), Some("2024-06-02T06:30:00+02:00"));
    assert_eq!(t.active_period.as_deref(), Some("morning"));
    assert!(t.shows_adjust());
    t.time_input("08:15".to_string(), &periods, &clock());
    assert_eq!(t.selected_time.as_deref(), Some("2024-06-01T08:15:00+02:00"));
    assert_eq!(t.active_period.as_deref(), Some("morning"));
    t.time_input("10:00".to_string(), &periods, &clock());
    assert_eq!(t.active_period, None);
    t.select_now();
    assert_eq!(t.selected_time, None);
    assert!(!t.shows_adjust());
    assert_eq!(t.time_value, "10:00");
}

#[test]
fn search_needs_both_stops() {
    let mut status = SearchStatus::new();
    assert!(!can_search(&Some(stop("1", "A")), &None));
    assert_eq!(status.begin(&Some(stop("1", "A")), &None), None);
    assert!(!status.loading);
    assert!(can_search(&Some(stop("1", "A")), &Some(stop("2", "B"))));
}

#[test]
fn search_runs_then_shows_results_or_error() {
    let mut status = SearchStatus::new();
    status.error = Some("old".to_string());
    let ids = status.begin(&Some(stop("1", "A")), &Some(stop("2", "B")));
    assert_eq!(ids, Some(("1".to_string(), "2".to_string())));
    assert!(status.loading);
    assert_eq!(status.error, None);
    assert!(status.results.is_none());
    status.finish(Ok(JourneyResult { trip_patterns: vec![] }));
    assert!(!status.loading);
    assert!(status.results.is_some());
    assert_eq!(status.error, None);

    status.begin(&Some(stop("1", "A")), &Some(stop("2", "B")));
    status.finish(Err("GraphQL errors: boom".to_string()));
    assert!(!status.loading);
    assert_eq!(status.error.as_deref(), Some("GraphQL errors: boom"));
    assert!(status.results.is_none());
}
