# Kyss

A journey planner for public transport in Norway on top of EnTur's open APIs:
search stops, plan trips, save frequent trips as "trip types", and follow a
trip in real time.

- `src/` is the verified library (Verus). It holds the shared data model and
  every rule of the app: turning geocoder and journey-planner answers into
  stops and journeys, the recent-stops cache and saved trip types, the state
  machines of the stop field and the time picker, real-time updates of legs,
  URL building, and the text and times shown on screen. Each public function
  carries a contract; the laws that relate several functions are public proof
  functions next to them.
- `tests/` runs the library on concrete values.
- `app/` is the unverified shell: the axum server that talks to EnTur over
  HTTP, and the leptos browser app that draws the pages, reads the clock, runs
  timers and stores data in local storage. It converts between JSON and the
  library's types and leaves every decision to the library.

Real-time following works per leg that carries a service-journey id. The trip
query sent to the journey planner does not ask for that id, so journeys read
from its answers carry none, and the trip view shows the planned times until
the query is extended to request it.
