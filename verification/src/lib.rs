//! Audio channels in front of a kira audio manager.
//!
//! Callers queue commands (play, stop, pause, resume, level changes) on a
//! channel. Once per tick the [`audio_output::AudioOutput`] drains every
//! queue, runs each command against the backend, puts back what cannot be
//! done yet, forgets the sounds that have stopped and publishes the state of
//! the others for the callers to query.

pub mod audio_output;
pub mod backend;
pub mod channel;
pub mod command;
pub mod instance;
pub mod laws;
pub mod queue;
pub mod settings;
pub mod sound;
pub mod sources;
