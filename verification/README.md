# chords_server_rs

Backend of chordZIC, a web sequencer of chord grids: it turns JSON requests
into MIDI (live playback on FluidSynth or a hardware piano), renders WAV files
offline with FluidSynth, listens to the pianist's keyboard and drives a click
track.

The crate has two parts.

- `src/` is the library, written in Verus: its functions carry `requires` /
  `ensures` contracts that the verifier proves (the trusted calls listed
  below are relied on instead, and the clock read behind
  `RecSession::now_ms` has nothing to promise). It holds the
  musical and protocol logic: note names, walking bass, drum patterns, the
  live chord player's step-by-step decisions, Standard MIDI File writing,
  keyboard input and echo routing, the expression (MPE) modal, click
  scheduling decisions, WAV silence trimming, file-name rules and the small
  parsers the server relies on.
- `app/` is the HTTP server (axum), MIDI and audio I/O (midir, cpal, rodio),
  external processes (FluidSynth, ffplay, arecord, ffmpeg) and the
  floating-point parts: turning chord lengths in fractional beats into the
  library's chord shapes and its beat positions back into time, audio
  effects, gains and mixes, LFO, real-time scheduling. The choices of notes,
  channels and messages are the library's.

The trusted part is small and named: the calls into `hound` and `midly`,
and a few standard-library calls (the clock, `char::is_alphanumeric`, case
mappings, file stems). Each is a function marked `external_body` whose
contract says what the outside code is relied on for.

Modules of the library:

| module | content |
|---|---|
| `walking` | walking-bass line, bass register, minor detection |
| `patterns` | drum patterns (live and rendered), velocity scaling |
| `smf` | VLQ, event sorting, SMF chunks |
| `render` | rendered tracks, SMF of a grid, of free notes, of the click |
| `grid` | the notes of a rendered grid on beats and half beats (lead, bass, pads, drums, accent), each inside its chord so that rests stay silent |
| `midi` | note names, live state, play and configuration requests |
| `live_seq` | messages of the live chord player, step by step |
| `mpe`, `mpe_modal` | expression messages, the modal's state machine |
| `live_input` | held notes, echo/monitoring routes, MIDI recording |
| `navig` | set-up and routing of piano-roll playback, click choices |
| `click` | click settings, loop frames, integer resampling |
| `wav` | silence trimming through `hound` |
| `engine` | SMF of tick spans through `midly` |
| `external_render`, `grilles`, `pads`, `samples`, `vst3_live`, `server` | parsing and naming rules |
| `text`, `num`, `dsp` | strings, integer parsing, effect settings |
