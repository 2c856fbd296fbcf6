use tplayer::command::{PlayerCommand, PlayerEvent};
use tplayer::engine::{first_decodable, Engine, EngineInput, Next, Publish};
use tplayer::timing::TimeBase;

fn engine() -> Engine {
    Engine::new(7, Some(TimeBase::new(1, 44100)))
}

#[test]
fn start_publishes_playing_and_time_zero() {
    let mut e = engine();
    let s = e.step(EngineInput::Started);
    assert_eq!(s.publish, Some(Publish::Playing(true)));
    assert_eq!(s.emit, Some(PlayerEvent::TimeUpdate(0)));
    assert_eq!(s.next, Next::PollCommand);
}

#[test]
fn stop_finishes_for_good() {
    let mut e = engine();
    e.step(EngineInput::Started);
    let s = e.step(EngineInput::Command(PlayerCommand::Stop));
    assert_eq!(s.next, Next::Finish);
    assert_eq!(s.emit, None);
    assert!(e.is_finished());
    let s = e.step(EngineInput::NoCommand);
    assert_eq!(s.next, Next::Finish);
}

#[test]
fn pause_sleeps_and_play_resumes_reading() {
    let mut e = engine();
    e.step(EngineInput::Started);
    let s = e.step(EngineInput::Command(PlayerCommand::Pause));
    assert_eq!(s.publish, Some(Publish::Playing(false)));
    assert!(e.is_paused());
    assert_eq!(e.step(EngineInput::NoCommand).next, Next::Sleep);
    assert_eq!(e.step(EngineInput::Slept).next, Next::PollCommand);
    let s = e.step(EngineInput::Command(PlayerCommand::Play));
    assert_eq!(s.publish, Some(Publish::Playing(true)));
    assert!(!e.is_paused());
    assert_eq!(e.step(EngineInput::NoCommand).next, Next::ReadPacket);
}

#[test]
fn volume_and_seek() {
    let mut e = engine();
    e.step(EngineInput::Started);
    let bits = 0.5f32.to_bits();
    let s = e.step(EngineInput::Command(PlayerCommand::Volume(bits)));
    assert_eq!(s.publish, Some(Publish::Volume(bits)));
    assert_eq!(s.next, Next::PollCommand);
    let s = e.step(EngineInput::Command(PlayerCommand::Seek(12.5f64.to_bits())));
    assert_eq!(s.publish, None);
    assert_eq!(s.emit, None);
    assert_eq!(s.next, Next::PollCommand);
}

#[test]
fn packets_of_other_tracks_are_skipped() {
    let mut e = engine();
    e.step(EngineInput::Started);
    assert_eq!(e.step(EngineInput::Packet { track_id: 3, ts: 10 }).next, Next::PollCommand);
    assert_eq!(e.step(EngineInput::Packet { track_id: 7, ts: 10 }).next, Next::PlayPacket);
}

#[test]
fn played_packets_report_whole_seconds() {
    let mut e = engine();
    e.step(EngineInput::Started);
    let s = e.step(EngineInput::Played { ts: 88200 });
    assert_eq!(s.emit, Some(PlayerEvent::TimeUpdate(2)));
    let s = e.step(EngineInput::Played { ts: 88199 });
    assert_eq!(s.emit, Some(PlayerEvent::TimeUpdate(1)));
    assert_eq!(s.next, Next::PollCommand);
}

#[test]
fn end_of_stream_reports_ended() {
    let mut e = engine();
    e.step(EngineInput::Started);
    let s = e.step(EngineInput::EndOfStream);
    assert_eq!(s.emit, Some(PlayerEvent::Ended));
    assert_eq!(s.next, Next::Finish);
    let mut e = engine();
    let s = e.step(EngineInput::ReadFailed);
    assert_eq!(s.emit, None);
    assert_eq!(s.next, Next::Finish);
    let mut e = engine();
    assert_eq!(e.step(EngineInput::PlayFailed).next, Next::Finish);
}

#[test]
fn duration_needs_frames_and_time_base() {
    let e = engine();
    assert_eq!(e.duration(Some(44100 * 90 + 5)), Some(90));
    assert_eq!(e.duration(None), None);
    let e = Engine::new(1, None);
    assert_eq!(e.duration(Some(1000)), None);
    assert!(!e.has_time_base());
}

#[test]
fn first_decodable_track() {
    assert_eq!(first_decodable(&vec![false, true, true]), Some(1));
    assert_eq!(first_decodable(&vec![true]), Some(0));
    assert_eq!(first_decodable(&vec![false, false]), None);
    assert_eq!(first_decodable(&vec![]), None);
}

fn drive(e: &mut Engine, inputs: Vec<EngineInput>) -> (Vec<PlayerEvent>, Vec<Publish>) {
    let mut events = Vec::new();
    let mut publishes = Vec::new();
    for input in inputs {
        let s = e.step(input);
        if let Some(p) = s.publish {
            publishes.push(p);
        }
        if let Some(ev) = s.emit {
            events.push(ev);
        }
    }
    (events, publishes)
}

fn session(with_seeks: bool) -> Vec<EngineInput> {
    let mut v = vec![EngineInput::Started];
    if with_seeks {
        v.push(EngineInput::Command(PlayerCommand::Seek(3.0f64.to_bits())));
    }
    v.push(EngineInput::NoCommand);
    v.push(EngineInput::Packet { track_id: 7, ts: 44100 });
    v.push(EngineInput::Played { ts: 44100 });
    if with_seeks {
        v.push(EngineInput::Command(PlayerCommand::Seek(0)));
    }
    v.push(EngineInput::Command(PlayerCommand::Pause));
    v.push(EngineInput::NoCommand);
    v.push(EngineInput::Slept);
    v.push(EngineInput::Command(PlayerCommand::Play));
    v.push(EngineInput::NoCommand);
    v.push(EngineInput::EndOfStream);
    v.push(EngineInput::Command(PlayerCommand::Pause));
    v
}

#[test]
fn a_run_reports_times_then_ended_last() {
    let mut e = engine();
    let (events, publishes) = drive(&mut e, session(false));
    assert_eq!(events, vec![PlayerEvent::TimeUpdate(0), PlayerEvent::TimeUpdate(1), PlayerEvent::Ended]);
    assert_eq!(
        publishes,
        vec![Publish::Playing(true), Publish::Playing(false), Publish::Playing(true)]
    );
    assert!(e.is_finished());
    assert!(!e.is_paused());
}

#[test]
fn seeks_leave_a_run_unchanged() {
    let mut a = engine();
    let mut b = engine();
    assert_eq!(drive(&mut a, session(false)), drive(&mut b, session(true)));
    assert_eq!(a.is_paused(), b.is_paused());
    assert_eq!(a.is_finished(), b.is_finished());
}

#[test]
fn last_volume_wins_and_stop_keeps_the_flag() {
    let mut e = engine();
    let inputs = vec![
        EngineInput::Started,
        EngineInput::Command(PlayerCommand::Volume(1)),
        EngineInput::Command(PlayerCommand::Pause),
        EngineInput::Command(PlayerCommand::Volume(2)),
        EngineInput::Command(PlayerCommand::Stop),
        EngineInput::Command(PlayerCommand::Volume(3)),
        EngineInput::Command(PlayerCommand::Play),
    ];
    let (_, publishes) = drive(&mut e, inputs);
    assert_eq!(
        publishes,
        vec![Publish::Playing(true), Publish::Volume(1), Publish::Playing(false), Publish::Volume(2)]
    );
    assert!(e.is_paused());
    assert!(e.is_finished());
}
