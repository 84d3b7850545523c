//! The core of a live-performance instrument: a parameter store, a sound bank,
//! a synthesis graph, and the rules by which MIDI input becomes commands for
//! them.

pub mod audio;
pub mod config;
pub mod message;
pub mod midi;
pub mod table;
