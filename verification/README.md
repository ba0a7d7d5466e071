# FxTrumpet

An audio hub for the Windows notification area. One icon does three things:

- it enhances everything that is played, by capturing a virtual sound card,
  running the sound through an effects engine and rendering it to the real one;
- it mixes: every application and every device has its volume and its mute;
- it routes: an application can be sent to an output of its own.

## Layout

- `src/` is the library: every decision the application makes, written in Verus
  and proved against its contracts. It performs no I/O. Where outside work and
  decisions alternate, a function takes what has happened so far and returns the
  next step; the caller performs it and asks again.
- `tests/` exercises the library from outside.
- `app/` is the Windows program: COM, WASAPI, the registry, SetupAPI, files, the
  tray icon, and the little that is floating point. It needs Windows and the
  effects engine's C interface; elsewhere it builds, and says so when started.

## What is proved

Each public function states what it returns for every input, and when it fails.
Laws that span functions are public proof functions with a doc comment, next to
what they speak of; among them:

- `routing::release_undoes_engage`: what a takeover displaced is what is given
  back;
- `app::the_marker_precedes_the_switch`, `app::an_interrupted_takeover_is_undone`:
  a run that is killed leaves a way back;
- `startup::routing_comes_before_the_engine`,
  `startup::a_failed_start_gives_the_output_back`: a start never leaves the
  output where nobody listens;
- `graph::the_graph_does_not_feed_back`: a graph never renders into the endpoint
  that it captures;
- `router::a_second_pass_writes_nothing`, `router::a_fresh_process_is_written`:
  the routing rules converge, and keep up with new processes;
- `process::storage_round_trips`, `process::hashing_agrees_with_equality`: an
  application's key survives storage, and hashes as it compares;
- `applier::rounds_settle`, `applier::the_grid_is_in_step`: parameters are handed
  to the engine once, and the grid that is shown is the engine's;
- `path::joining_keeps_names_apart`: two names behind one path are two files.

## What is trusted

A few functions of the standard library, each in one place with a contract of
its own: `String::push`, `str::to_lowercase`, `String::from_utf8_lossy` and the
`{:?}` form of a string in `src/text.rs`, `char::from_u32` in `src/wide.rs`, and
`str::hash` in `src/process.rs`.
