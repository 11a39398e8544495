use singing_sand::artcache::{ArtCache, ArtLookup, ArtResponse};
use singing_sand::notes::{NotesAction, NotesDebouncer, NotesEvent};
use singing_sand::playback::{EngineCommand, EngineState, SinkAction, TickReport};
use singing_sand::rendercache::RenderCache;

fn names(v: &[SinkAction]) -> Vec<String> {
    v.iter()
        .map(|a| match a {
            SinkAction::StopSink => "stop".to_string(),
            SinkAction::SetPositionFromCommand => "position".to_string(),
            SinkAction::ResetPosition => "rewind".to_string(),
            SinkAction::OpenSource(p) => format!("open {p}"),
            SinkAction::AppendAndPlay => "play source".to_string(),
            SinkAction::PlaySink => "play".to_string(),
            SinkAction::PauseSink => "pause".to_string(),
            SinkAction::SetVolume => "volume".to_string(),
            SinkAction::ReportError => "error".to_string(),
        })
        .collect()
}

fn loaded(path: &str) -> EngineState {
    let mut e = EngineState::new();
    e.command(&EngineCommand::LoadAndPlay { path: path.to_string() }, true);
    e.source_opened(true);
    e
}

#[test]
fn load_asks_for_a_decoder_then_plays() {
    let mut e = EngineState::new();
    let first = e.command(&EngineCommand::LoadAndPlay { path: "/m/a.flac".into() }, true);
    assert_eq!(names(&first), vec!["stop", "position", "open /m/a.flac"]);
    assert!(e.is_opening());
    assert_eq!(names(&e.source_opened(true)), vec!["play source"]);
    assert!(!e.is_opening());
}

#[test]
fn failed_load_reports_an_error_and_plays_nothing() {
    let mut e = EngineState::new();
    e.command(&EngineCommand::LoadAndPlay { path: "/m/bad.mp3".into() }, false);
    assert_eq!(names(&e.source_opened(false)), vec!["error"]);
    // Nothing is loaded, so a seek does nothing and the end is never reported.
    assert!(e.command(&EngineCommand::Seek, false).is_empty());
    assert_eq!(e.tick(false, true), TickReport { emit_position: false, track_finished: false });
}

#[test]
fn simple_commands_map_to_sink_calls() {
    let mut e = EngineState::new();
    assert_eq!(names(&e.command(&EngineCommand::Play, true)), vec!["play"]);
    assert_eq!(names(&e.command(&EngineCommand::Pause, false)), vec!["pause"]);
    assert_eq!(names(&e.command(&EngineCommand::SetVolume, false)), vec!["volume"]);
    assert_eq!(names(&e.command(&EngineCommand::Stop, false)), vec!["stop", "rewind"]);
}

#[test]
fn seek_reloads_and_keeps_pause() {
    let mut e = loaded("/m/a.mp3");
    let steps = e.command(&EngineCommand::Seek, true);
    assert_eq!(names(&steps), vec!["stop", "position", "open /m/a.mp3"]);
    assert_eq!(names(&e.source_opened(true)), vec!["play source", "pause"]);
    let mut e = loaded("/m/a.mp3");
    e.command(&EngineCommand::Seek, true);
    assert_eq!(names(&e.source_opened(false)), vec!["error", "pause"]);
    let mut e = loaded("/m/a.mp3");
    e.command(&EngineCommand::Seek, false);
    assert_eq!(names(&e.source_opened(true)), vec!["play source"]);
}

#[test]
fn ticks_report_position_while_playing() {
    let mut e = loaded("/m/a.mp3");
    assert_eq!(e.tick(false, false), TickReport { emit_position: true, track_finished: false });
    assert_eq!(e.tick(true, false), TickReport { emit_position: false, track_finished: false });
}

#[test]
fn track_end_is_reported_once() {
    let mut e = loaded("/m/a.mp3");
    assert_eq!(e.tick(false, true), TickReport { emit_position: false, track_finished: true });
    assert_eq!(e.tick(false, true), TickReport { emit_position: false, track_finished: false });
    assert!(e.command(&EngineCommand::Seek, false).is_empty());
}

#[test]
fn stop_silences_track_end() {
    let mut e = loaded("/m/a.mp3");
    e.command(&EngineCommand::Stop, false);
    assert!(!e.tick(false, true).track_finished);
}

#[test]
fn notes_burst_saves_last_edit_once() {
    let mut d = NotesDebouncer::new();
    let a = d.step(NotesEvent::Edit { track_id: 1, text: "h".into() });
    assert!(matches!(a, NotesAction::WaitQuietPeriod));
    d.step(NotesEvent::Edit { track_id: 1, text: "he".into() });
    d.step(NotesEvent::Edit { track_id: 1, text: "hey".into() });
    let saved = d.step(NotesEvent::Quiet);
    assert!(matches!(saved, NotesAction::Save { track_id: 1, ref text } if text == "hey"));
    assert!(matches!(d.step(NotesEvent::Quiet), NotesAction::WaitForEdit));
}

#[test]
fn notes_edit_for_another_track_replaces_pending() {
    let mut d = NotesDebouncer::new();
    d.step(NotesEvent::Edit { track_id: 1, text: "one".into() });
    d.step(NotesEvent::Edit { track_id: 2, text: "two".into() });
    assert!(matches!(d.step(NotesEvent::Quiet), NotesAction::Save { track_id: 2, ref text } if text == "two"));
}

#[test]
fn notes_closed_channel_flushes_then_exits() {
    let mut d = NotesDebouncer::new();
    d.step(NotesEvent::Edit { track_id: 5, text: "draft".into() });
    assert!(matches!(d.step(NotesEvent::Closed), NotesAction::Save { track_id: 5, ref text } if text == "draft"));
    assert!(matches!(d.step(NotesEvent::Closed), NotesAction::Exit));
}

#[test]
fn art_is_fetched_once_then_cached() {
    let mut cache = ArtCache::new();
    assert!(matches!(cache.lookup("art://localhost/7"), ArtLookup::Fetch(7)));
    let reply = cache.fetched(7, Some(vec![0xff, 0xd8, 1]));
    assert_eq!(reply.status(), 200);
    assert!(matches!(reply, ArtResponse::Jpeg(ref b) if b == &vec![0xff, 0xd8, 1]));
    assert!(matches!(cache.lookup("art://localhost/7"), ArtLookup::Cached(ref b) if b == &vec![0xff, 0xd8, 1]));
    assert!(matches!(cache.lookup("art://localhost/8"), ArtLookup::Fetch(8)));
}

#[test]
fn missing_art_is_not_found_and_not_cached() {
    let mut cache = ArtCache::new();
    let reply = cache.fetched(3, None);
    assert_eq!(reply.status(), 404);
    assert!(matches!(cache.lookup("art://localhost/3"), ArtLookup::Fetch(3)));
}

#[test]
fn bad_art_url_is_refused() {
    let cache = ArtCache::new();
    assert!(matches!(cache.lookup("art://localhost/cover"), ArtLookup::BadRequest));
    assert_eq!(ArtResponse::BadRequest.status(), 400);
}

#[test]
fn render_cache_keeps_buffer_until_a_change() {
    let mut c: RenderCache<Vec<u8>> = RenderCache::new();
    assert!(c.needs_render());
    c.store(vec![1, 2, 3]);
    assert!(!c.needs_render());
    assert!(!c.settings_set(false));
    c.viewport_set(false);
    assert!(!c.needs_render());
    assert_eq!(c.cached(), &vec![1, 2, 3]);
    assert!(c.settings_set(true));
    assert!(c.needs_render());
    c.store(vec![4]);
    c.viewport_set(true);
    assert!(c.needs_render());
    c.store(vec![5]);
    c.data_set();
    assert!(c.needs_render());
}

#[test]
fn no_second_track_end_until_a_new_file_plays() {
    let mut e = loaded("/m/a.mp3");
    assert!(e.tick(false, true).track_finished);
    e.command(&EngineCommand::Play, true);
    assert!(!e.tick(false, true).track_finished);
    assert!(e.command(&EngineCommand::Seek, false).is_empty());
    e.command(&EngineCommand::SetVolume, false);
    e.command(&EngineCommand::LoadAndPlay { path: "/m/broken.mp3".into() }, false);
    e.source_opened(false);
    assert!(!e.tick(false, true).track_finished);
    e.command(&EngineCommand::Pause, false);
    assert!(!e.tick(true, true).track_finished);
    e.command(&EngineCommand::LoadAndPlay { path: "/m/b.mp3".into() }, false);
    e.source_opened(true);
    assert!(e.tick(false, true).track_finished);
    assert!(!e.tick(false, true).track_finished);
}
