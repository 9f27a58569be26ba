//! Verified core of the Kyss journey planner: the shared data model, the
//! rules that turn EnTur responses into journeys, the recent-stops cache,
//! and the text and time formatting shown to travellers.

pub mod app_data;
pub mod clock_text;
pub mod journey;
pub mod model;
pub mod realtime;
pub mod search_form;
pub mod text;
pub mod urls;
pub mod views;
