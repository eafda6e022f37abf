# daw

The core of a digital audio workstation, verified with Verus: a replayable project
model with a command log, tempo, snapshots and branches; content-addressed media with
waveform previews; 16-bit PCM WAV reading and writing; the sample layout of the audio
engine; timeline arithmetic, snap grids and the clip-drag state machine; render
planning; and Git integration as step functions.

Layout:

- `src/` — the library. Its executable functions carry contracts that Verus proves,
  except small trusted wrappers (`#[verifier::external_body]`), one per outside
  function — the system clock and its distance from the Unix epoch, the standard
  library's randomly keyed hasher state, `String::push`, SHA-256 from `sha2` and two
  path queries — whose contracts are believed, not proved. The `law_*` proof functions
  state properties that span several operations (replay after edits, validity rules,
  WAV round trips, media index invariants, render placement, snapping).
- `tests/` — executable tests of the library.
- `app/` — the `daw` command-line program: argument handling, files, system Git,
  floating-point rendering and real-time audio through cpal.

There is no graphical front end: the egui/eframe arrangement window is not part of
this crate. Its decision logic — the snap grid (`timeline::timeline_grid`), clip
dragging (`timeline::clip_drag_step`) and the track header's choice of edit
(`timeline::track_header_action`) — is in the library, ready for a front end to drive.
