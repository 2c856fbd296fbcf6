//! Playback logic of a small media player: the commands and events that pass
//! between the user interface and the audio engine, the engine's decision
//! procedure, time-base arithmetic, subtitle conversion and media routing.

pub mod command;
pub mod engine;
pub mod media;
pub mod player;
pub mod subtitle;
mod text;
pub mod timing;

pub use command::{PlayerCommand, PlayerEvent};
pub use player::AudioPlayer;
