use vstd::prelude::*;

use crate::command::{PlayerCommand, PlayerEvent};
use crate::timing::{seconds_of, TimeBase};
use vstd::arithmetic::div_mod::{lemma_div_is_ordered, lemma_div_pos_is_pos, lemma_small_mod};
use vstd::arithmetic::mul::{lemma_mul_inequality, lemma_mul_nonnegative};

verus! {

/// The index of the first track that has a decoder, given for each track
/// whether its codec is known.
pub fn first_decodable(decodable: &Vec<bool>) -> (index: Option<usize>)
    ensures
        match index {
            Some(i) => i < decodable.len() && decodable[i as int] && forall|j: int|
                0 <= j < i ==> !decodable[j],
            None => forall|j: int| 0 <= j < decodable.len() ==> !decodable[j],
        },
{
    let mut i: usize = 0;
    while i < decodable.len()
        invariant
            0 <= i <= decodable.len(),
            forall|j: int| 0 <= j < i ==> !decodable[j],
        decreases decodable.len() - i,
    {
        if decodable[i] {
            return Some(i);
        }
        i = i + 1;
    }
    None
}

/// What the engine loop observed since the engine last decided.
pub enum EngineInput {
    /// The output stream is running and decoding may begin.
    Started,
    /// A command arrived on the control channel.
    Command(PlayerCommand),
    /// The control channel holds no further command.
    NoCommand,
    /// The pause interval is over.
    Slept,
    /// The demuxer produced a packet of track `track_id` at timestamp `ts`.
    Packet { track_id: u32, ts: u64 },
    /// The demuxer reached the end of its input (an I/O error).
    EndOfStream,
    /// The demuxer failed for another reason.
    ReadFailed,
    /// The last packet, at timestamp `ts`, was decoded and queued for output.
    Played { ts: u64 },
    /// Decoding the last packet failed, or the output queue is closed.
    PlayFailed,
}

/// A value the engine shares with the output stream.
#[derive(Clone, Copy, Debug, PartialEq, Eq, Structural)]
pub enum Publish {
    /// Whether the output stream should sound (`false` renders silence).
    Playing(bool),
    /// The output gain, as the bit pattern of an `f32`.
    Volume(u32),
}

/// What the engine loop does next.
#[derive(Clone, Copy, Debug, PartialEq, Eq, Structural)]
pub enum Next {
    /// Try to receive one command without waiting.
    PollCommand,
    /// Wait the pause interval.
    Sleep,
    /// Ask the demuxer for the next packet.
    ReadPacket,
    /// Decode the packet just read and queue its samples for output.
    PlayPacket,
    /// Leave the loop; the engine has finished.
    Finish,
}

/// One decision: an optional shared value to publish, an optional event to
/// report, and the next thing to do, in that order.
pub struct EngineStep {
    pub publish: Option<Publish>,
    pub emit: Option<PlayerEvent>,
    pub next: Next,
}

/// The engine's state as the contracts see it.
pub struct EngineView {
    pub track_id: u32,
    pub time_base: Option<TimeBase>,
    pub paused: bool,
    pub finished: bool,
}

/// The decision procedure of the playback loop of one decoded track.
pub struct Engine {
    track_id: u32,
    time_base: Option<TimeBase>,
    paused: bool,
    finished: bool,
}

impl View for Engine {
    type V = EngineView;

    closed spec fn view(&self) -> EngineView {
        EngineView {
            track_id: self.track_id,
            time_base: self.time_base,
            paused: self.paused,
            finished: self.finished,
        }
    }
}

pub open spec fn step_of(publish: Option<Publish>, emit: Option<PlayerEvent>, next: Next) -> EngineStep {
    EngineStep { publish, emit, next }
}

pub open spec fn with_paused(e: EngineView, paused: bool) -> EngineView {
    EngineView { paused, ..e }
}

pub open spec fn with_finished(e: EngineView) -> EngineView {
    EngineView { finished: true, ..e }
}

/// The reported time of a packet at timestamp `ts`.
pub open spec fn played_seconds(e: EngineView, ts: u64) -> int {
    seconds_of(e.time_base->0.numer(), e.time_base->0.denom(), ts)
}

/// The decision of engine `e` on `input`: the engine afterwards, and the step.
pub open spec fn transition(e: EngineView, input: EngineInput) -> (EngineView, EngineStep) {
    if e.finished {
        (e, step_of(None, None, Next::Finish))
    } else {
        match input {
            EngineInput::Started => (
                with_paused(e, false),
                step_of(Some(Publish::Playing(true)), Some(PlayerEvent::TimeUpdate(0)), Next::PollCommand),
            ),
            EngineInput::Command(cmd) => match cmd {
                PlayerCommand::Stop => (with_finished(e), step_of(None, None, Next::Finish)),
                PlayerCommand::Pause => (
                    with_paused(e, true),
                    step_of(Some(Publish::Playing(false)), None, Next::PollCommand),
                ),
                PlayerCommand::Play => (
                    with_paused(e, false),
                    step_of(Some(Publish::Playing(true)), None, Next::PollCommand),
                ),
                PlayerCommand::Volume(v) => (e, step_of(Some(Publish::Volume(v)), None, Next::PollCommand)),
                PlayerCommand::Seek(_) => (e, step_of(None, None, Next::PollCommand)),
            },
            EngineInput::NoCommand => (
                e,
                step_of(None, None, if e.paused { Next::Sleep } else { Next::ReadPacket }),
            ),
            EngineInput::Slept => (e, step_of(None, None, Next::PollCommand)),
            EngineInput::Packet { track_id, ts } => (
                e,
                step_of(None, None, if track_id == e.track_id { Next::PlayPacket } else { Next::PollCommand }),
            ),
            EngineInput::EndOfStream => (with_finished(e), step_of(None, Some(PlayerEvent::Ended), Next::Finish)),
            EngineInput::ReadFailed => (with_finished(e), step_of(None, None, Next::Finish)),
            EngineInput::Played { ts } => (
                e,
                step_of(None, Some(PlayerEvent::TimeUpdate(played_seconds(e, ts) as u64)), Next::PollCommand),
            ),
            EngineInput::PlayFailed => (with_finished(e), step_of(None, None, Next::Finish)),
        }
    }
}

/// Whether `transition(e, input)` is defined: reporting the time of a played
/// packet needs the track's time base.
pub open spec fn accepts(e: EngineView, input: EngineInput) -> bool {
    (input is Played && !e.finished) ==> e.time_base is Some
}


/// Monotonicity of the time conversion: a later timestamp never maps to an
/// earlier second, as long as the later one does not wrap past 2^64 seconds.
pub proof fn lemma_seconds_monotone(numer: u32, denom: u32, ts1: u64, ts2: u64)
    requires
        denom > 0,
        ts1 <= ts2,
        (ts2 as int) * (numer as int) / (denom as int) < 0x1_0000_0000_0000_0000,
    ensures
        seconds_of(numer, denom, ts1) <= seconds_of(numer, denom, ts2),
{
    let a = (ts1 as int) * (numer as int);
    let b = (ts2 as int) * (numer as int);
    lemma_mul_inequality(ts1 as int, ts2 as int, numer as int);
    lemma_div_is_ordered(a, b, denom as int);
    lemma_mul_nonnegative(ts1 as int, numer as int);
    lemma_div_pos_is_pos(a, denom as int);
    lemma_small_mod((a / (denom as int)) as nat, 0x1_0000_0000_0000_0000nat);
    lemma_small_mod((b / (denom as int)) as nat, 0x1_0000_0000_0000_0000nat);
}

/// A `Stop` command ends playback whatever the engine was doing.
pub proof fn law_stop_finishes(e: EngineView)
    ensures
        transition(e, EngineInput::Command(PlayerCommand::Stop)).0.finished,
        transition(e, EngineInput::Command(PlayerCommand::Stop)).1.next == Next::Finish,
{
}

/// A finished engine stays finished and asks for nothing but to finish.
pub proof fn law_finished_is_final(e: EngineView, input: EngineInput)
    requires
        e.finished,
    ensures
        transition(e, input) == (e, step_of(None, None, Next::Finish)),
{
}

/// `Pause` followed by `Play` gives back the engine that was playing, after
/// publishing that the output should fall silent and then sound again.
pub proof fn law_pause_then_play_restores(e: EngineView)
    requires
        !e.finished,
        !e.paused,
    ensures
        transition(transition(e, EngineInput::Command(PlayerCommand::Pause)).0, EngineInput::Command(PlayerCommand::Play)).0 == e,
        transition(e, EngineInput::Command(PlayerCommand::Pause)).1.publish == Some(Publish::Playing(false)),
        transition(transition(e, EngineInput::Command(PlayerCommand::Pause)).0, EngineInput::Command(PlayerCommand::Play)).1.publish
            == Some(Publish::Playing(true)),
{
}

/// Pausing twice is pausing once.
pub proof fn law_pause_idempotent(e: EngineView)
    ensures
        transition(transition(e, EngineInput::Command(PlayerCommand::Pause)).0, EngineInput::Command(PlayerCommand::Pause)).0
            == transition(e, EngineInput::Command(PlayerCommand::Pause)).0,
{
}

/// Whenever the engine publishes whether the output should sound, it
/// publishes exactly that it is not paused.
pub proof fn law_published_playing_matches(e: EngineView, input: EngineInput)
    ensures
        transition(e, input).1.publish matches Some(Publish::Playing(p)) ==> p == !transition(e, input).0.paused,
{
}

/// Only `Pause`, `Play` and the start of playback change whether the engine
/// is paused.
pub proof fn law_pause_changes_only_by_command(e: EngineView, input: EngineInput)
    requires
        !(input is Started),
        !(input matches EngineInput::Command(c) && (c is Pause || c is Play)),
    ensures
        transition(e, input).0.paused == e.paused,
        transition(e, input).0.track_id == e.track_id,
        transition(e, input).0.time_base == e.time_base,
{
}

/// After the command channel runs dry a paused engine sleeps and an
/// unpaused one reads the next packet: a paused engine never reads.
pub proof fn law_paused_engine_sleeps(e: EngineView)
    requires
        !e.finished,
    ensures
        transition(e, EngineInput::NoCommand).1.next == (if e.paused { Next::Sleep } else { Next::ReadPacket }),
        transition(e, EngineInput::NoCommand).0 == e,
{
}

/// A volume command publishes its gain unchanged and touches nothing else.
pub proof fn law_volume_passes_through(e: EngineView, v: u32)
    requires
        !e.finished,
    ensures
        transition(e, EngineInput::Command(PlayerCommand::Volume(v))) == (e, step_of(
            Some(Publish::Volume(v)),
            None,
            Next::PollCommand,
        )),
{
}

/// A command other than `Stop` never makes the engine read, decode or
/// sleep: it only asks to poll the command channel again.
pub proof fn law_commands_keep_polling(e: EngineView, cmd: PlayerCommand)
    requires
        !e.finished,
        !(cmd is Stop),
    ensures
        transition(e, EngineInput::Command(cmd)).1.next == Next::PollCommand,
        !transition(e, EngineInput::Command(cmd)).0.finished,
{
}

/// The engine asks to decode a packet only right after reading a packet of
/// its own track, while it has not finished.
pub proof fn law_plays_only_own_packets(e: EngineView, input: EngineInput)
    ensures
        transition(e, input).1.next == Next::PlayPacket ==> !e.finished && (input matches EngineInput::Packet {
            track_id,
            ts: _,
        } && track_id == e.track_id),
{
}

/// The engine asks to read a packet only when the command channel has run
/// dry and it is neither paused nor finished.
pub proof fn law_reads_only_when_running(e: EngineView, input: EngineInput)
    ensures
        transition(e, input).1.next == Next::ReadPacket ==> input is NoCommand && !e.paused && !e.finished,
        transition(e, input).1.next == Next::Sleep ==> input is NoCommand && e.paused && !e.finished,
{
}

/// Packets of other tracks are skipped without a trace.
pub proof fn law_foreign_packets_skipped(e: EngineView, track_id: u32, ts: u64)
    requires
        !e.finished,
        track_id != e.track_id,
    ensures
        transition(e, EngineInput::Packet { track_id, ts }) == (e, step_of(None, None, Next::PollCommand)),
{
}

/// Reported playback times never go backwards while timestamps go forwards
/// (short of wrapping past 2^64 seconds).
pub proof fn law_reported_time_monotone(e: EngineView, ts1: u64, ts2: u64)
    requires
        !e.finished,
        e.time_base is Some,
        e.time_base->0.denom() > 0,
        ts1 <= ts2,
        (ts2 as int) * (e.time_base->0.numer() as int) / (e.time_base->0.denom() as int) < 0x1_0000_0000_0000_0000,
    ensures
        transition(e, EngineInput::Played { ts: ts1 }).1.emit matches Some(PlayerEvent::TimeUpdate(t1))
            && transition(e, EngineInput::Played { ts: ts2 }).1.emit matches Some(PlayerEvent::TimeUpdate(t2))
            && t1 <= t2,
{
    lemma_seconds_monotone(e.time_base->0.numer(), e.time_base->0.denom(), ts1, ts2);
}

// ---------------------------------------------------------------------------
// Runs: the engine over a sequence of inputs.
// ---------------------------------------------------------------------------

/// The engine after the inputs `inputs`, one by one, and the steps it took.
pub open spec fn run(e: EngineView, inputs: Seq<EngineInput>) -> (EngineView, Seq<EngineStep>)
    decreases inputs.len(),
{
    if inputs.len() == 0 {
        (e, Seq::empty())
    } else {
        let prev = run(e, inputs.drop_last());
        let next = transition(prev.0, inputs.last());
        (next.0, prev.1.push(next.1))
    }
}

/// The engine after the first `i` inputs.
pub open spec fn state_at(e: EngineView, inputs: Seq<EngineInput>, i: int) -> EngineView {
    run(e, inputs.take(i)).0
}

/// The events a sequence of steps reports, in order.
pub open spec fn emitted(steps: Seq<EngineStep>) -> Seq<PlayerEvent>
    decreases steps.len(),
{
    if steps.len() == 0 {
        Seq::empty()
    } else {
        match steps.last().emit {
            Some(ev) => emitted(steps.drop_last()).push(ev),
            None => emitted(steps.drop_last()),
        }
    }
}

/// The shared values a sequence of steps publishes, in order.
pub open spec fn published(steps: Seq<EngineStep>) -> Seq<Publish>
    decreases steps.len(),
{
    if steps.len() == 0 {
        Seq::empty()
    } else {
        match steps.last().publish {
            Some(p) => published(steps.drop_last()).push(p),
            None => published(steps.drop_last()),
        }
    }
}

/// `inputs` without its `Seek` commands.
pub open spec fn without_seeks(inputs: Seq<EngineInput>) -> Seq<EngineInput>
    decreases inputs.len(),
{
    if inputs.len() == 0 {
        Seq::empty()
    } else if inputs.last() matches EngineInput::Command(PlayerCommand::Seek(_)) {
        without_seeks(inputs.drop_last())
    } else {
        without_seeks(inputs.drop_last()).push(inputs.last())
    }
}

/// Whether the engine is paused after `inputs`, starting from `paused`: the
/// last `Pause`, `Play` or start among them decides.
pub open spec fn paused_after(paused: bool, inputs: Seq<EngineInput>) -> bool
    decreases inputs.len(),
{
    if inputs.len() == 0 {
        paused
    } else {
        match inputs.last() {
            EngineInput::Command(PlayerCommand::Pause) => true,
            EngineInput::Command(PlayerCommand::Play) => false,
            EngineInput::Started => false,
            _ => paused_after(paused, inputs.drop_last()),
        }
    }
}

proof fn lemma_run_len(e: EngineView, inputs: Seq<EngineInput>)
    ensures
        run(e, inputs).1.len() == inputs.len(),
    decreases inputs.len(),
{
    if inputs.len() > 0 {
        lemma_run_len(e, inputs.drop_last());
    }
}

proof fn lemma_run_prefix(e: EngineView, inputs: Seq<EngineInput>, k: int)
    requires
        0 <= k <= inputs.len(),
    ensures
        run(e, inputs.take(k)).1 == run(e, inputs).1.take(k),
    decreases inputs.len(),
{
    lemma_run_len(e, inputs);
    if k == inputs.len() {
        assert(inputs.take(k) =~= inputs);
        assert(run(e, inputs).1.take(k) =~= run(e, inputs).1);
    } else {
        assert(inputs.take(k) =~= inputs.drop_last().take(k));
        lemma_run_prefix(e, inputs.drop_last(), k);
        lemma_run_len(e, inputs.drop_last());
        assert(run(e, inputs).1.take(k) =~= run(e, inputs.drop_last()).1.take(k));
    }
}

/// Step `i` of a run is the decision of the engine after the first `i`
/// inputs on input `i`.
pub proof fn lemma_run_step(e: EngineView, inputs: Seq<EngineInput>, i: int)
    requires
        0 <= i < inputs.len(),
    ensures
        run(e, inputs).1.len() == inputs.len(),
        run(e, inputs).1[i] == transition(state_at(e, inputs, i), inputs[i]).1,
        state_at(e, inputs, i + 1) == transition(state_at(e, inputs, i), inputs[i]).0,
{
    lemma_run_len(e, inputs);
    let t = inputs.take(i + 1);
    assert(t.drop_last() =~= inputs.take(i));
    assert(t.last() == inputs[i]);
    lemma_run_prefix(e, inputs, i + 1);
    lemma_run_len(e, inputs.take(i));
    assert(run(e, t).1[i] == run(e, inputs).1.take(i + 1)[i]);
}

/// Over any run the engine keeps its track and time base.
pub proof fn law_run_keeps_track(e: EngineView, inputs: Seq<EngineInput>)
    ensures
        run(e, inputs).0.track_id == e.track_id,
        run(e, inputs).0.time_base == e.time_base,
    decreases inputs.len(),
{
    if inputs.len() > 0 {
        law_run_keeps_track(e, inputs.drop_last());
    }
}

/// Once the engine has finished it stays finished, and every later step
/// asks only to finish, reporting and publishing nothing.
pub proof fn law_run_finished_stays(e: EngineView, inputs: Seq<EngineInput>, i: int)
    requires
        0 <= i <= inputs.len(),
        state_at(e, inputs, i).finished,
    ensures
        forall|j: int| i <= j <= inputs.len() ==> #[trigger] state_at(e, inputs, j).finished,
        forall|j: int| i <= j < inputs.len() ==> #[trigger] run(e, inputs).1[j] == step_of(None, None, Next::Finish),
    decreases inputs.len(),
{
    lemma_run_len(e, inputs);
    let n = inputs.len() as int;
    if i < n {
        let d = inputs.drop_last();
        assert forall|j: int| 0 <= j <= n - 1 implies #[trigger] state_at(e, inputs, j) == state_at(e, d, j) by {
            assert(inputs.take(j) =~= d.take(j));
        }
        law_run_finished_stays(e, d, i);
        lemma_run_len(e, d);
        assert forall|j: int| i <= j <= n implies #[trigger] state_at(e, inputs, j).finished by {
            if j == n {
                lemma_run_step(e, inputs, n - 1);
            }
        }
        assert forall|j: int| i <= j < n implies #[trigger] run(e, inputs).1[j] == step_of(None, None, Next::Finish) by {
            lemma_run_step(e, inputs, j);
        }
    }
}

/// The events of a run come in the order the loop promises: only playback
/// times and the end of the stream are reported; a time is reported at the
/// start (zero) and for each packet played while running (its time in
/// seconds); the end of the stream is reported only on reaching it and is
/// the last event; and a step that finishes publishes nothing.
pub proof fn law_run_event_order(e: EngineView, inputs: Seq<EngineInput>)
    ensures
        run(e, inputs).1.len() == inputs.len(),
        forall|i: int|
            0 <= i < inputs.len() ==> ((#[trigger] run(e, inputs).1[i]).emit matches Some(ev) ==> (ev is TimeUpdate
                || ev is Ended)),
        forall|i: int|
            0 <= i < inputs.len() ==> ((#[trigger] run(e, inputs).1[i]).emit matches Some(PlayerEvent::TimeUpdate(t))
                ==> ((inputs[i] is Started && t == 0) || (inputs[i] matches EngineInput::Played { ts } && t
                == played_seconds(e, ts) as u64))),
        forall|i: int|
            0 <= i < inputs.len() && !state_at(e, inputs, i).finished ==> (inputs[i] matches EngineInput::Played {
                ts,
            } ==> (#[trigger] run(e, inputs).1[i]).emit == Some(PlayerEvent::TimeUpdate(played_seconds(e, ts) as u64))),
        forall|i: int, j: int|
            0 <= i < j < inputs.len() && (#[trigger] run(e, inputs).1[i]).emit == Some(PlayerEvent::Ended) ==> (
            #[trigger] run(e, inputs).1[j]).emit is None && run(e, inputs).1[j].next == Next::Finish,
        forall|i: int|
            0 <= i < inputs.len() && (#[trigger] run(e, inputs).1[i]).emit == Some(PlayerEvent::Ended)
                ==> inputs[i] is EndOfStream,
        forall|i: int|
            0 <= i < inputs.len() && (#[trigger] run(e, inputs).1[i]).next == Next::Finish ==> run(e, inputs).1[i].publish
                is None,
{
    lemma_run_len(e, inputs);
    assert forall|i: int| 0 <= i < inputs.len() implies {
        let st = (#[trigger] run(e, inputs).1[i]);
        &&& st.emit matches Some(ev) ==> (ev is TimeUpdate || ev is Ended)
        &&& st.emit matches Some(PlayerEvent::TimeUpdate(t)) ==> ((inputs[i] is Started && t == 0) || (
        inputs[i] matches EngineInput::Played { ts } && t == played_seconds(e, ts) as u64))
        &&& !state_at(e, inputs, i).finished ==> (inputs[i] matches EngineInput::Played { ts } ==> st.emit
            == Some(PlayerEvent::TimeUpdate(played_seconds(e, ts) as u64)))
        &&& st.emit == Some(PlayerEvent::Ended) ==> inputs[i] is EndOfStream
        &&& st.next == Next::Finish ==> st.publish is None
    } by {
        lemma_run_step(e, inputs, i);
        law_run_keeps_track(e, inputs.take(i));
    }
    assert forall|i: int, j: int|
        0 <= i < j < inputs.len() && (#[trigger] run(e, inputs).1[i]).emit == Some(PlayerEvent::Ended) implies (
        #[trigger] run(e, inputs).1[j]).emit is None && run(e, inputs).1[j].next == Next::Finish by {
        lemma_run_step(e, inputs, i);
        law_run_finished_stays(e, inputs, i + 1);
    }
}

proof fn lemma_run_paused(e: EngineView, inputs: Seq<EngineInput>)
    requires
        !run(e, inputs).0.finished,
    ensures
        run(e, inputs).0.paused == paused_after(e.paused, inputs),
    decreases inputs.len(),
{
    if inputs.len() > 0 {
        let d = inputs.drop_last();
        if run(e, d).0.finished {
            assert(transition(run(e, d).0, inputs.last()).0.finished);
        }
        lemma_run_paused(e, d);
    }
}

/// The inputs on which the engine finishes: a `Stop`, the end of the
/// stream, or a failure to read or play.
pub open spec fn finishes(input: EngineInput) -> bool {
    ||| input matches EngineInput::Command(PlayerCommand::Stop)
    ||| input is EndOfStream
    ||| input is ReadFailed
    ||| input is PlayFailed
}

/// The inputs before the first one that finishes (all of them when none
/// does): what a run acts on before it returns.
pub open spec fn before_finish(inputs: Seq<EngineInput>) -> Seq<EngineInput>
    decreases inputs.len(),
{
    if inputs.len() == 0 {
        Seq::empty()
    } else {
        let p = before_finish(inputs.drop_last());
        if p.len() < inputs.len() - 1 || finishes(inputs.last()) {
            p
        } else {
            p.push(inputs.last())
        }
    }
}

/// The last playing flag a sequence of steps publishes.
pub open spec fn last_playing(steps: Seq<EngineStep>) -> Option<bool>
    decreases steps.len(),
{
    if steps.len() == 0 {
        None
    } else {
        match steps.last().publish {
            Some(Publish::Playing(b)) => Some(b),
            _ => last_playing(steps.drop_last()),
        }
    }
}

/// The last gain a sequence of steps publishes.
pub open spec fn last_volume(steps: Seq<EngineStep>) -> Option<u32>
    decreases steps.len(),
{
    if steps.len() == 0 {
        None
    } else {
        match steps.last().publish {
            Some(Publish::Volume(v)) => Some(v),
            _ => last_volume(steps.drop_last()),
        }
    }
}

/// The gain of the last `Volume` command among `inputs`.
pub open spec fn last_volume_command(inputs: Seq<EngineInput>) -> Option<u32>
    decreases inputs.len(),
{
    if inputs.len() == 0 {
        None
    } else {
        match inputs.last() {
            EngineInput::Command(PlayerCommand::Volume(v)) => Some(v),
            _ => last_volume_command(inputs.drop_last()),
        }
    }
}

/// The timestamps of the packets a run plays, in order: each packet read
/// that the engine decides to decode.
pub open spec fn packets_played(inputs: Seq<EngineInput>, steps: Seq<EngineStep>) -> Seq<u64>
    decreases inputs.len(),
{
    if inputs.len() == 0 || steps.len() == 0 {
        Seq::empty()
    } else {
        let rest = packets_played(inputs.drop_last(), steps.drop_last());
        match inputs.last() {
            EngineInput::Packet { track_id: _, ts } => if steps.last().next == Next::PlayPacket {
                rest.push(ts)
            } else {
                rest
            },
            _ => rest,
        }
    }
}

/// The work a sequence of steps asks of the loop beyond polling the command
/// channel and returning: reading, decoding and sleeping, in order.
pub open spec fn work(steps: Seq<EngineStep>) -> Seq<Next>
    decreases steps.len(),
{
    if steps.len() == 0 {
        Seq::empty()
    } else if steps.last().next == Next::PollCommand || steps.last().next == Next::Finish {
        work(steps.drop_last())
    } else {
        work(steps.drop_last()).push(steps.last().next)
    }
}

proof fn lemma_run_before_finish(e: EngineView, inputs: Seq<EngineInput>)
    requires
        !e.finished,
    ensures
        before_finish(inputs).len() <= inputs.len(),
        before_finish(inputs) == inputs.take(before_finish(inputs).len() as int),
        forall|i: int| 0 <= i < before_finish(inputs).len() ==> !finishes(#[trigger] inputs[i]),
        before_finish(inputs).len() < inputs.len() ==> finishes(inputs[before_finish(inputs).len() as int]),
        run(e, inputs).0.finished <==> before_finish(inputs).len() < inputs.len(),
        run(e, inputs).0.paused == paused_after(e.paused, before_finish(inputs)),
        last_volume(run(e, inputs).1) == last_volume_command(before_finish(inputs)),
        last_playing(run(e, inputs).1) matches Some(b) ==> b == !run(e, inputs).0.paused,
    decreases inputs.len(),
{
    if inputs.len() > 0 {
        let d = inputs.drop_last();
        lemma_run_before_finish(e, d);
        let p = before_finish(d);
        let prev = run(e, d);
        let t = transition(prev.0, inputs.last());
        assert(prev.1.push(t.1).drop_last() =~= prev.1);
        assert forall|i: int| 0 <= i < before_finish(inputs).len() implies !finishes(#[trigger] inputs[i]) by {
            if i < p.len() {
                assert(d[i] == inputs[i]);
            }
        }
        if p.len() < d.len() {
            assert(d[p.len() as int] == inputs[p.len() as int]);
            assert(inputs.take(p.len() as int) =~= d.take(p.len() as int));
        } else if finishes(inputs.last()) {
            assert(p =~= inputs.take(p.len() as int));
        } else {
            assert(p.push(inputs.last()) =~= inputs.take(inputs.len() as int));
            assert(p.push(inputs.last()).drop_last() =~= p);
        }
    } else {
        assert(inputs.take(0) =~= inputs);
    }
}

/// The playing flag over a whole run, up to its return: the engine is
/// paused exactly when the last `Pause`, `Play` or start before the first
/// finishing input was a `Pause`; the last flag it publishes says so and is
/// never taken back on returning; every flag it publishes says so at its
/// step; and it asks to read a packet only when not paused.
pub proof fn law_run_playing_flag(e: EngineView, inputs: Seq<EngineInput>)
    requires
        !e.finished,
    ensures
        run(e, inputs).0.paused == paused_after(e.paused, before_finish(inputs)),
        last_playing(run(e, inputs).1) matches Some(b) ==> b == !paused_after(e.paused, before_finish(inputs)),
        run(e, inputs).1.len() == inputs.len(),
        forall|i: int|
            0 <= i < inputs.len() ==> ((#[trigger] run(e, inputs).1[i]).publish matches Some(Publish::Playing(b))
                ==> b == !paused_after(e.paused, inputs.take(i + 1))),
        forall|i: int|
            0 <= i < inputs.len() ==> ((#[trigger] run(e, inputs).1[i]).next == Next::ReadPacket ==> !paused_after(
                e.paused,
                inputs.take(i + 1),
            )),
{
    lemma_run_before_finish(e, inputs);
    lemma_run_len(e, inputs);
    assert forall|i: int| 0 <= i < inputs.len() implies {
        let st = (#[trigger] run(e, inputs).1[i]);
        &&& st.publish matches Some(Publish::Playing(b)) ==> b == !paused_after(e.paused, inputs.take(i + 1))
        &&& st.next == Next::ReadPacket ==> !paused_after(e.paused, inputs.take(i + 1))
    } by {
        lemma_run_step(e, inputs, i);
        let st = run(e, inputs).1[i];
        if st.publish matches Some(Publish::Playing(_)) || st.next == Next::ReadPacket {
            assert(!state_at(e, inputs, i + 1).finished);
            lemma_run_paused(e, inputs.take(i + 1));
        }
    }
}

/// The last gain a run publishes is that of the last `Volume` command it
/// read before finishing (none when it read none).
pub proof fn law_run_last_volume(e: EngineView, inputs: Seq<EngineInput>)
    requires
        !e.finished,
    ensures
        last_volume(run(e, inputs).1) == last_volume_command(before_finish(inputs)),
{
    lemma_run_before_finish(e, inputs);
}

/// `Seek` commands change nothing: a run with them ends in the same engine,
/// reports the same events, publishes the same values, asks for the same
/// reading, decoding and sleeping, and plays the same packets as the run
/// without them; each of their steps only asks to poll again (or to
/// finish).
pub proof fn law_run_seek_invisible(e: EngineView, inputs: Seq<EngineInput>)
    ensures
        run(e, inputs).0 == run(e, without_seeks(inputs)).0,
        emitted(run(e, inputs).1) == emitted(run(e, without_seeks(inputs)).1),
        published(run(e, inputs).1) == published(run(e, without_seeks(inputs)).1),
        work(run(e, inputs).1) == work(run(e, without_seeks(inputs)).1),
        packets_played(inputs, run(e, inputs).1) == packets_played(
            without_seeks(inputs),
            run(e, without_seeks(inputs)).1,
        ),
        run(e, inputs).1.len() == inputs.len(),
        forall|i: int|
            0 <= i < inputs.len() && (inputs[i] matches EngineInput::Command(PlayerCommand::Seek(_))) ==> {
                let st = #[trigger] run(e, inputs).1[i];
                &&& st.emit is None
                &&& st.publish is None
                &&& st.next == Next::PollCommand || st.next == Next::Finish
            },
    decreases inputs.len(),
{
    lemma_run_len(e, inputs);
    if inputs.len() > 0 {
        let d = inputs.drop_last();
        law_run_seek_invisible(e, d);
        lemma_run_len(e, d);
        let prev = run(e, d);
        let t = transition(prev.0, inputs.last());
        assert(prev.1.push(t.1).drop_last() =~= prev.1);
        if !(inputs.last() matches EngineInput::Command(PlayerCommand::Seek(_))) {
            let w = without_seeks(d);
            assert(w.push(inputs.last()).drop_last() =~= w);
            let wr = run(e, w);
            assert(wr.1.push(t.1).drop_last() =~= wr.1);
            lemma_run_len(e, w);
            lemma_run_len(e, w.push(inputs.last()));
        }
        assert forall|i: int|
            0 <= i < inputs.len() && (inputs[i] matches EngineInput::Command(PlayerCommand::Seek(_))) implies {
            let st = #[trigger] run(e, inputs).1[i];
            &&& st.emit is None
            &&& st.publish is None
            &&& st.next == Next::PollCommand || st.next == Next::Finish
        } by {
            lemma_run_step(e, inputs, i);
        }
    }
}

impl Engine {
    /// An engine for the track `track_id`, whose timestamps count ticks of
    /// `time_base` when it has one. It starts unpaused.
    pub fn new(track_id: u32, time_base: Option<TimeBase>) -> (e: Engine)
        ensures
            e@ == (EngineView { track_id, time_base, paused: false, finished: false }),
    {
        Engine { track_id, time_base, paused: false, finished: false }
    }

    /// Whether the track has a time base, which reporting playback times needs.
    pub fn has_time_base(&self) -> (b: bool)
        ensures
            b == (self@.time_base is Some),
    {
        self.time_base.is_some()
    }

    /// The length of the track in whole seconds, from its frame count, when
    /// both the frame count and the time base are known.
    pub fn duration(&self, n_frames: Option<u64>) -> (seconds: Option<u64>)
        ensures
            seconds == (match (n_frames, self@.time_base) {
                (Some(n), Some(tb)) => Some(seconds_of(tb.numer(), tb.denom(), n) as u64),
                _ => None,
            }),
    {
        match (n_frames, &self.time_base) {
            (Some(n), Some(tb)) => Some(tb.seconds_at(n)),
            _ => None,
        }
    }

    /// Whether a `Stop` command, or the end or a failure of the stream, has
    /// ended playback.
    pub fn is_finished(&self) -> (b: bool)
        ensures
            b == self@.finished,
    {
        self.finished
    }

    /// Whether playback is paused.
    pub fn is_paused(&self) -> (b: bool)
        ensures
            b == self@.paused,
    {
        self.paused
    }

    /// Decides what to do after `input`.
    pub fn step(&mut self, input: EngineInput) -> (s: EngineStep)
        requires
            accepts(old(self)@, input),
        ensures
            (final(self)@, s) == transition(old(self)@, input),
    {
        if self.finished {
            return EngineStep { publish: None, emit: None, next: Next::Finish };
        }
        match input {
            EngineInput::Started => {
                self.paused = false;
                EngineStep {
                    publish: Some(Publish::Playing(true)),
                    emit: Some(PlayerEvent::TimeUpdate(0)),
                    next: Next::PollCommand,
                }
            },
            EngineInput::Command(cmd) => match cmd {
                PlayerCommand::Stop => {
                    self.finished = true;
                    EngineStep { publish: None, emit: None, next: Next::Finish }
                },
                PlayerCommand::Pause => {
                    self.paused = true;
                    EngineStep { publish: Some(Publish::Playing(false)), emit: None, next: Next::PollCommand }
                },
                PlayerCommand::Play => {
                    self.paused = false;
                    EngineStep { publish: Some(Publish::Playing(true)), emit: None, next: Next::PollCommand }
                },
                PlayerCommand::Volume(v) => {
                    EngineStep { publish: Some(Publish::Volume(v)), emit: None, next: Next::PollCommand }
                },
                PlayerCommand::Seek(_) => {
                    EngineStep { publish: None, emit: None, next: Next::PollCommand }
                },
            },
            EngineInput::NoCommand => {
                let next = if self.paused { Next::Sleep } else { Next::ReadPacket };
                EngineStep { publish: None, emit: None, next }
            },
            EngineInput::Slept => EngineStep { publish: None, emit: None, next: Next::PollCommand },
            EngineInput::Packet { track_id, ts: _ } => {
                let next = if track_id == self.track_id { Next::PlayPacket } else { Next::PollCommand };
                EngineStep { publish: None, emit: None, next }
            },
            EngineInput::EndOfStream => {
                self.finished = true;
                EngineStep { publish: None, emit: Some(PlayerEvent::Ended), next: Next::Finish }
            },
            EngineInput::ReadFailed => {
                self.finished = true;
                EngineStep { publish: None, emit: None, next: Next::Finish }
            },
            EngineInput::Played { ts } => {
                let seconds = self.time_base.as_ref().unwrap().seconds_at(ts);
                EngineStep {
                    publish: None,
                    emit: Some(PlayerEvent::TimeUpdate(seconds)),
                    next: Next::PollCommand,
                }
            },
            EngineInput::PlayFailed => {
                self.finished = true;
                EngineStep { publish: None, emit: None, next: Next::Finish }
            },
        }
    }
}

} // verus!
