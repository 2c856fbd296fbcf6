use vstd::prelude::*;

use crate::command::{PlayerCommand, PlayerEvent};

verus! {

#[verifier::external_type_specification]
#[verifier::external_body]
#[verifier::reject_recursive_types(T)]
pub struct ExUnboundedSender<T>(tokio::sync::mpsc::UnboundedSender<T>);

#[verifier::external_type_specification]
#[verifier::external_body]
#[verifier::reject_recursive_types(T)]
pub struct ExUnboundedReceiver<T>(tokio::sync::mpsc::UnboundedReceiver<T>);

/// `tokio::sync::mpsc::unbounded_channel`: a fresh, empty channel for
/// commands. Nothing about the pair is stated.
#[verifier::external_body]
fn command_channel() -> (pair: (
    tokio::sync::mpsc::UnboundedSender<PlayerCommand>,
    tokio::sync::mpsc::UnboundedReceiver<PlayerCommand>,
)) {
    tokio::sync::mpsc::unbounded_channel()
}

/// `tokio::sync::mpsc::UnboundedSender::send`: queues `cmd` unless the
/// receiving engine is gone, in which case the command is dropped. Whether
/// it was queued depends on the engine thread and is not stated.
#[verifier::external_body]
fn hand_over(tx: &tokio::sync::mpsc::UnboundedSender<PlayerCommand>, cmd: PlayerCommand) {
    let _ = tx.send(cmd);
}

/// What an audio engine thread needs: the file to play, the command channel
/// it obeys, and the channel it reports on.
pub struct EngineLaunch {
    pub path: String,
    pub commands: tokio::sync::mpsc::UnboundedReceiver<PlayerCommand>,
    pub events: tokio::sync::mpsc::UnboundedSender<PlayerEvent>,
}

/// The control side of the audio player: the command channel of the engine
/// playing the current file, if a file was loaded.
pub struct AudioPlayer {
    command_tx: Option<tokio::sync::mpsc::UnboundedSender<PlayerCommand>>,
}

impl AudioPlayer {
    /// A file has been loaded, so commands reach an engine.
    pub closed spec fn has_session(&self) -> bool {
        self.command_tx is Some
    }

    /// A player with nothing loaded.
    pub fn new() -> (p: AudioPlayer)
        ensures
            !p.has_session(),
    {
        AudioPlayer { command_tx: None }
    }

    /// Whether a file has been loaded.
    pub fn is_loaded(&self) -> (b: bool)
        ensures
            b == self.has_session(),
    {
        self.command_tx.is_some()
    }

    /// Starts a new playback session for the file at `path`: tells the
    /// engine of the previous session, if any, to stop, opens a new command
    /// channel, and returns what the new engine thread needs. Commands sent
    /// from now on go to the new engine. The contract states that a session
    /// is open and what the launch carries; which channel receives the
    /// `Stop` and the later commands is not stated (the channel is shared
    /// with the engine thread) and is checked by the tests instead.
    pub fn load_file(&mut self, path: String, event_tx: tokio::sync::mpsc::UnboundedSender<PlayerEvent>) -> (launch: EngineLaunch)
        ensures
            final(self).has_session(),
            launch.path@ == path@,
            launch.events == event_tx,
    {
        if let Some(tx) = &self.command_tx {
            hand_over(tx, PlayerCommand::Stop);
        }
        let (cmd_tx, cmd_rx) = command_channel();
        self.command_tx = Some(cmd_tx);
        EngineLaunch { path, commands: cmd_rx, events: event_tx }
    }

    /// Hands `cmd` to the engine of the current session; without a session
    /// the command is dropped. The delivery is checked by the tests, not
    /// stated by a contract.
    pub fn send_command(&self, cmd: PlayerCommand) {
        if let Some(tx) = &self.command_tx {
            hand_over(tx, cmd);
        }
    }
}

} // verus!
