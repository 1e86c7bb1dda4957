//! Verified core of the chordZIC backend: chord grids turned into MIDI,
//! walking bass, drum patterns, live MIDI routing and the small parsers the
//! server relies on.
pub mod walking;
pub mod text;
pub mod patterns;
pub mod smf;
pub mod dsp;
pub mod num;
pub mod render;
pub mod grid;
pub mod midi;
pub mod mpe;
pub mod live_input;
pub mod grilles;
pub mod external_render;
pub mod pads;
pub mod vst3_live;
pub mod click;
pub mod engine;
pub mod live_seq;
pub mod server;
pub mod navig;
pub mod mpe_modal;
pub mod wav;
pub mod samples;
pub mod ports;
