# Firewheel

An audio graph engine, verified with Verus.

* `src/` is the engine: the audio graph and its compiler, the event scheduler, the
  processor of the audio thread and the messages that it exchanges with the context,
  parameter diffing, and the decisions of the built-in nodes. Functions state
  what they return; where that depends on the other thread, as with the channels, they
  state what holds of every outcome. The `laws` modules state what holds across
  functions.
* `app/` is the floating point side: signal processing, streams, and the bindings to
  an audio backend.
* `tests/` runs the engine.

Times in seconds and in musical beats are bit patterns in `src/`; closures that are
passed in turn them into frames.
