use vstd::prelude::*;

verus! {

/// A request from the user interface to the audio engine.
///
/// The seek target and the volume travel as the IEEE-754 bit patterns of the
/// `f64` seconds and the `f32` gain that the interface works with; the engine
/// stores and forwards them without looking inside.
#[derive(Clone, Copy, Debug, PartialEq, Eq, Structural)]
pub enum PlayerCommand {
    Play,
    Pause,
    Stop,
    Seek(u64),
    Volume(u32),
}

/// A report from the audio engine to the user interface. Times are whole
/// seconds.
#[derive(Debug, PartialEq, Eq)]
pub enum PlayerEvent {
    TimeUpdate(u64),
    Duration(u64),
    Ended,
    Error(String),
}

} // verus!
