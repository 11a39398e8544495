//! The decisions of the audio engine thread: what each command does to the
//! output sink, and what a periodic poll of the sink reports. The thread, the
//! sink, the decoder and every position, duration and volume (all floating
//! point) stay with the caller, which performs the returned actions in order
//! and reports back whether a decoder could be opened.

use vstd::prelude::*;

verus! {

/// A command to the audio engine, without its numeric payload (the start or
/// target position, or the volume), which the caller keeps.
#[derive(Debug, Clone)]
pub enum EngineCommand {
    /// Load a file and play it from the command's start position.
    LoadAndPlay { path: String },
    Play,
    Pause,
    Stop,
    /// Restart the current file at the command's target position.
    Seek,
    /// Set the volume the command carries.
    SetVolume,
}

/// One piece of work on the sink, the shared position or the event channel.
#[derive(Debug, Clone)]
pub enum SinkAction {
    /// Stop the sink, dropping what it holds.
    StopSink,
    /// Set the shared position to the position the command carries.
    SetPositionFromCommand,
    /// Set the shared position to zero.
    ResetPosition,
    /// Open a decoder for this file at the command's position; its outcome
    /// goes to `EngineState::source_opened`.
    OpenSource(String),
    /// Append the opened decoder to the sink and play.
    AppendAndPlay,
    PlaySink,
    PauseSink,
    /// Set the sink's volume to the command's value.
    SetVolume,
    /// Send an error event with the decoder's message.
    ReportError,
}

/// What a poll of the sink reports.
#[derive(Debug, Clone, Copy, PartialEq, Eq, Structural)]
pub struct TickReport {
    /// Send the current position.
    pub emit_position: bool,
    /// The loaded file has played to its end: send a track-finished event.
    pub track_finished: bool,
}

// ── Model ───────────────────────────────────────────────────────────────────

pub enum CommandModel {
    LoadAndPlay(Seq<char>),
    Play,
    Pause,
    Stop,
    Seek,
    SetVolume,
}

impl View for EngineCommand {
    type V = CommandModel;

    open spec fn view(&self) -> CommandModel {
        match self {
            EngineCommand::LoadAndPlay { path } => CommandModel::LoadAndPlay(path@),
            EngineCommand::Play => CommandModel::Play,
            EngineCommand::Pause => CommandModel::Pause,
            EngineCommand::Stop => CommandModel::Stop,
            EngineCommand::Seek => CommandModel::Seek,
            EngineCommand::SetVolume => CommandModel::SetVolume,
        }
    }
}

pub enum SinkStep {
    StopSink,
    SetPositionFromCommand,
    ResetPosition,
    OpenSource(Seq<char>),
    AppendAndPlay,
    PlaySink,
    PauseSink,
    SetVolume,
    ReportError,
}

impl View for SinkAction {
    type V = SinkStep;

    open spec fn view(&self) -> SinkStep {
        match self {
            SinkAction::StopSink => SinkStep::StopSink,
            SinkAction::SetPositionFromCommand => SinkStep::SetPositionFromCommand,
            SinkAction::ResetPosition => SinkStep::ResetPosition,
            SinkAction::OpenSource(p) => SinkStep::OpenSource(p@),
            SinkAction::AppendAndPlay => SinkStep::AppendAndPlay,
            SinkAction::PlaySink => SinkStep::PlaySink,
            SinkAction::PauseSink => SinkStep::PauseSink,
            SinkAction::SetVolume => SinkStep::SetVolume,
            SinkAction::ReportError => SinkStep::ReportError,
        }
    }
}

pub open spec fn steps_of(v: Seq<SinkAction>) -> Seq<SinkStep> {
    v.map_values(|a: SinkAction| a@)
}

/// The engine's state: the file playing (if any), and a decoder being
/// opened for a file, with whether the sink is to be paused afterwards.
pub struct EngineModel {
    pub current: Option<Seq<char>>,
    pub opening: Option<(Seq<char>, bool)>,
}

/// Stop, set the position, and open a decoder for `path`.
pub open spec fn reload_steps(path: Seq<char>) -> Seq<SinkStep> {
    seq![SinkStep::StopSink, SinkStep::SetPositionFromCommand, SinkStep::OpenSource(path)]
}

/// The state after a command, and the work it calls for. Loading (and
/// seeking, which reloads the current file) stops the sink, moves the
/// position and asks for a decoder; seeking with nothing loaded does
/// nothing; stopping forgets the current file and rewinds.
pub open spec fn command_step(m: EngineModel, cmd: CommandModel, sink_paused: bool) -> (
    EngineModel,
    Seq<SinkStep>,
) {
    match cmd {
        CommandModel::LoadAndPlay(p) => (
            EngineModel { current: m.current, opening: Some((p, false)) },
            reload_steps(p),
        ),
        CommandModel::Play => (m, seq![SinkStep::PlaySink]),
        CommandModel::Pause => (m, seq![SinkStep::PauseSink]),
        CommandModel::Stop => (
            EngineModel { current: None, opening: m.opening },
            seq![SinkStep::StopSink, SinkStep::ResetPosition],
        ),
        CommandModel::Seek => match m.current {
            Some(p) => (
                EngineModel { current: m.current, opening: Some((p, sink_paused)) },
                reload_steps(p),
            ),
            None => (m, seq![]),
        },
        CommandModel::SetVolume => (m, seq![SinkStep::SetVolume]),
    }
}

/// The state after the decoder requested by a load has been opened (`ok`) or
/// has failed, and the work that follows: play it (or report the error),
/// then pause again if a seek found the sink paused.
pub open spec fn opened_step(m: EngineModel, ok: bool) -> (EngineModel, Seq<SinkStep>) {
    let p = m.opening.unwrap().0;
    let pause_after = m.opening.unwrap().1;
    let first: Seq<SinkStep> = if ok {
        seq![SinkStep::AppendAndPlay]
    } else {
        seq![SinkStep::ReportError]
    };
    let last: Seq<SinkStep> = if pause_after {
        seq![SinkStep::PauseSink]
    } else {
        seq![]
    };
    (
        EngineModel { current: if ok { Some(p) } else { m.current }, opening: None },
        first + last,
    )
}

/// The state after a poll of the sink, and what the poll reports: the
/// position while the sink plays something, and the end of the loaded file
/// once the sink has run dry (after which the file is forgotten).
pub open spec fn tick_step(m: EngineModel, sink_paused: bool, sink_empty: bool) -> (
    EngineModel,
    TickReport,
) {
    let finished = m.current is Some && sink_empty;
    (
        EngineModel { current: if finished { None } else { m.current }, opening: m.opening },
        TickReport { emit_position: !sink_paused && !sink_empty, track_finished: finished },
    )
}

// ── State ───────────────────────────────────────────────────────────────────

/// The engine thread's own state.
pub struct EngineState {
    current_path: Option<String>,
    opening: Option<(String, bool)>,
}

impl View for EngineState {
    type V = EngineModel;

    closed spec fn view(&self) -> EngineModel {
        EngineModel {
            current: match self.current_path {
                Some(p) => Some(p@),
                None => None,
            },
            opening: match self.opening {
                Some((p, b)) => Some((p@, b)),
                None => None,
            },
        }
    }
}

impl EngineState {
    /// Nothing loaded, nothing being opened.
    pub fn new() -> (r: Self)
        ensures
            r@.current is None,
            r@.opening is None,
    {
        EngineState { current_path: None, opening: None }
    }

    /// Whether a decoder is being opened (between a load and its outcome).
    pub fn is_opening(&self) -> (r: bool)
        ensures
            r == self@.opening is Some,
    {
        self.opening.is_some()
    }

    /// Handles a command; `sink_paused` is whether the sink is paused now.
    /// A command that asks for a decoder must be followed by
    /// `source_opened` before anything else.
    pub fn command(&mut self, cmd: &EngineCommand, sink_paused: bool) -> (r: Vec<SinkAction>)
        requires
            old(self)@.opening is None,
        ensures
            final(self)@ == command_step(old(self)@, cmd@, sink_paused).0,
            steps_of(r@) == command_step(old(self)@, cmd@, sink_paused).1,
    {
        let mut r: Vec<SinkAction> = Vec::new();
        match cmd {
            EngineCommand::LoadAndPlay { path } => {
                r.push(SinkAction::StopSink);
                r.push(SinkAction::SetPositionFromCommand);
                r.push(SinkAction::OpenSource(path.clone()));
                self.opening = Some((path.clone(), false));
            },
            EngineCommand::Play => {
                r.push(SinkAction::PlaySink);
            },
            EngineCommand::Pause => {
                r.push(SinkAction::PauseSink);
            },
            EngineCommand::Stop => {
                r.push(SinkAction::StopSink);
                r.push(SinkAction::ResetPosition);
                self.current_path = None;
            },
            EngineCommand::Seek => {
                match &self.current_path {
                    Some(p) => {
                        let path = p.clone();
                        r.push(SinkAction::StopSink);
                        r.push(SinkAction::SetPositionFromCommand);
                        r.push(SinkAction::OpenSource(path.clone()));
                        self.opening = Some((path, sink_paused));
                    },
                    None => {},
                }
            },
            EngineCommand::SetVolume => {
                r.push(SinkAction::SetVolume);
            },
        }
        proof {
            assert(steps_of(r@) =~= command_step(old(self)@, cmd@, sink_paused).1);
        }
        r
    }

    /// Reports whether the decoder that the last command asked for could be
    /// opened, and returns the work that follows.
    pub fn source_opened(&mut self, ok: bool) -> (r: Vec<SinkAction>)
        requires
            old(self)@.opening is Some,
        ensures
            final(self)@ == opened_step(old(self)@, ok).0,
            steps_of(r@) == opened_step(old(self)@, ok).1,
    {
        let mut r: Vec<SinkAction> = Vec::new();
        let mut pending: Option<(String, bool)> = None;
        std::mem::swap(&mut pending, &mut self.opening);
        match pending {
            Some((path, pause_after)) => {
                if ok {
                    r.push(SinkAction::AppendAndPlay);
                    self.current_path = Some(path);
                } else {
                    r.push(SinkAction::ReportError);
                }
                if pause_after {
                    r.push(SinkAction::PauseSink);
                }
            },
            None => {},
        }
        proof {
            assert(steps_of(r@) =~= opened_step(old(self)@, ok).1);
        }
        r
    }

    /// Handles a poll of the sink.
    pub fn tick(&mut self, sink_paused: bool, sink_empty: bool) -> (r: TickReport)
        ensures
            final(self)@ == tick_step(old(self)@, sink_paused, sink_empty).0,
            r == tick_step(old(self)@, sink_paused, sink_empty).1,
    {
        let finished = self.current_path.is_some() && sink_empty;
        if finished {
            self.current_path = None;
        }
        TickReport { emit_position: !sink_paused && !sink_empty, track_finished: finished }
    }
}

// ── Laws ────────────────────────────────────────────────────────────────────

/// A seek with nothing loaded changes nothing and does nothing.
pub proof fn lemma_seek_without_track_is_inert(m: EngineModel, sink_paused: bool)
    requires
        m.current is None,
    ensures
        command_step(m, CommandModel::Seek, sink_paused) == (m, Seq::<SinkStep>::empty()),
{
    assert(command_step(m, CommandModel::Seek, sink_paused).1 =~= Seq::<SinkStep>::empty());
}

/// A seek keeps a paused sink paused, whether or not the file reopens: the
/// last thing done is to pause it again.
pub proof fn lemma_seek_keeps_pause(m: EngineModel, ok: bool)
    requires
        m.current is Some,
        m.opening is None,
    ensures
        ({
            let after_seek = command_step(m, CommandModel::Seek, true).0;
            let steps = opened_step(after_seek, ok).1;
            steps.len() == 2 && steps.last() == SinkStep::PauseSink
        }),
{
}

/// A successful load makes the loaded file the current one.
pub proof fn lemma_load_then_open_plays(m: EngineModel, path: Seq<char>, sink_paused: bool)
    ensures
        ({
            let after = opened_step(
                command_step(m, CommandModel::LoadAndPlay(path), sink_paused).0,
                true,
            );
            after.0.current == Some(path) && after.0.opening is None && after.1 == seq![
                SinkStep::AppendAndPlay,
            ]
        }),
{
    let after = opened_step(
        command_step(m, CommandModel::LoadAndPlay(path), sink_paused).0,
        true,
    );
    assert(after.1 =~= seq![SinkStep::AppendAndPlay]);
}

/// One thing that happens to the engine thread: a command (with whether the
/// sink was paused), the outcome of opening a decoder, or a poll of the sink
/// (whether it is paused, whether it is empty).
pub enum EngineEvent {
    Command(CommandModel, bool),
    Opened(bool),
    Tick(bool, bool),
}

/// The state after one event.
pub open spec fn event_state(m: EngineModel, e: EngineEvent) -> EngineModel {
    match e {
        EngineEvent::Command(cmd, paused) => command_step(m, cmd, paused).0,
        EngineEvent::Opened(ok) => opened_step(m, ok).0,
        EngineEvent::Tick(paused, empty) => tick_step(m, paused, empty).0,
    }
}

/// Whether the event is a poll that reports the end of a file.
pub open spec fn event_reports_end(m: EngineModel, e: EngineEvent) -> bool {
    match e {
        EngineEvent::Tick(paused, empty) => tick_step(m, paused, empty).1.track_finished,
        _ => false,
    }
}

/// The state after a run of events, in order.
pub open spec fn run_state(m: EngineModel, evs: Seq<EngineEvent>) -> EngineModel
    decreases evs.len(),
{
    if evs.len() == 0 {
        m
    } else {
        event_state(run_state(m, evs.drop_last()), evs.last())
    }
}

/// A decoder was opened: a new file starts playing.
pub open spec fn starts_new_file(e: EngineEvent) -> bool {
    e matches EngineEvent::Opened(ok) && ok
}

/// With no file playing, no poll reports the end of a file until a new
/// file starts playing, whatever commands and polls come in between.
pub proof fn lemma_no_end_until_new_file(m: EngineModel, evs: Seq<EngineEvent>)
    requires
        m.current is None,
        forall|i: int| 0 <= i < evs.len() ==> !starts_new_file(#[trigger] evs[i]),
    ensures
        run_state(m, evs).current is None,
        forall|k: int| 0 <= k < evs.len() ==> !event_reports_end(run_state(m, evs.take(k)), #[trigger] evs[k]),
    decreases evs.len(),
{
    if evs.len() > 0 {
        let init = evs.drop_last();
        assert forall|i: int| 0 <= i < init.len() implies !starts_new_file(#[trigger] init[i]) by {
            assert(init[i] == evs[i]);
        }
        lemma_no_end_until_new_file(m, init);
        assert(!starts_new_file(evs[evs.len() - 1]));
        assert forall|k: int| 0 <= k < evs.len() implies !event_reports_end(
            run_state(m, evs.take(k)),
            #[trigger] evs[k],
        ) by {
            if k < init.len() {
                assert(evs.take(k) =~= init.take(k));
                assert(evs[k] == init[k]);
            } else {
                assert(evs.take(k) =~= init);
            }
        }
    }
}

/// The end of a file is reported once: after the poll that reported it, no
/// poll reports an end again until a new file starts playing.
pub proof fn lemma_end_reported_once_until_next_file(
    m: EngineModel,
    paused: bool,
    empty: bool,
    evs: Seq<EngineEvent>,
)
    requires
        tick_step(m, paused, empty).1.track_finished,
        forall|i: int| 0 <= i < evs.len() ==> !starts_new_file(#[trigger] evs[i]),
    ensures
        forall|k: int|
            0 <= k < evs.len() ==> !event_reports_end(
                run_state(tick_step(m, paused, empty).0, evs.take(k)),
                #[trigger] evs[k],
            ),
{
    lemma_no_end_until_new_file(tick_step(m, paused, empty).0, evs);
}

/// After a stop, no poll reports the end of a file until a new file starts
/// playing.
pub proof fn lemma_stop_silences_until_next_file(m: EngineModel, sink_paused: bool, evs: Seq<EngineEvent>)
    requires
        forall|i: int| 0 <= i < evs.len() ==> !starts_new_file(#[trigger] evs[i]),
    ensures
        forall|k: int|
            0 <= k < evs.len() ==> !event_reports_end(
                run_state(command_step(m, CommandModel::Stop, sink_paused).0, evs.take(k)),
                #[trigger] evs[k],
            ),
{
    lemma_no_end_until_new_file(command_step(m, CommandModel::Stop, sink_paused).0, evs);
}

} // verus!
