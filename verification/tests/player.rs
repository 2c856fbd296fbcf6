use tplayer::command::PlayerCommand;
use tplayer::player::AudioPlayer;

#[test]
fn commands_before_loading_are_dropped() {
    let p = AudioPlayer::new();
    assert!(!p.is_loaded());
    p.send_command(PlayerCommand::Pause);
}

#[test]
fn loading_stops_the_previous_engine() {
    let mut p = AudioPlayer::new();
    let (events, _events_rx) = tokio::sync::mpsc::unbounded_channel();
    let mut first = p.load_file("one.mp3".to_string(), events.clone());
    assert!(p.is_loaded());
    assert_eq!(first.path, "one.mp3");
    p.send_command(PlayerCommand::Pause);
    let mut second = p.load_file("two.mp3".to_string(), events);
    p.send_command(PlayerCommand::Volume(0.25f32.to_bits()));
    assert_eq!(first.commands.try_recv().unwrap(), PlayerCommand::Pause);
    assert_eq!(first.commands.try_recv().unwrap(), PlayerCommand::Stop);
    assert!(first.commands.try_recv().is_err());
    assert_eq!(second.path, "two.mp3");
    assert_eq!(second.commands.try_recv().unwrap(), PlayerCommand::Volume(0.25f32.to_bits()));
    assert!(second.commands.try_recv().is_err());
}
