# quietmytempo

A terminal rhythm trainer: a metronome plays, the player taps the space
bar, and each tap is matched against the moment it was expected.

- `src/` is the verified library. Time is counted in whole nanoseconds
  (`u64`) from the start of a session, tempos in whole beats per minute,
  and note lengths in sixteenth-note ticks, so every computation on the
  timeline is exact. It holds the exercise schedules (Tap Along, Quiet
  Four, Tuplets, Rhythm Reader), the tap evaluator, calibration, the
  settings-file format, the menu and keyboard decisions, and the
  bookkeeping of the live and result screens, each with its contract, and
  the laws that relate them (`lemma_*` proof functions).
- `tests/` exercises the library on concrete values.
- `app/` is the terminal program around it: raw mode and drawing
  (crossterm, ratatui), the keyboard thread, audio output (cpal), the
  settings file on disk (dirs), and the floating-point statistics shown on
  the result screens.
