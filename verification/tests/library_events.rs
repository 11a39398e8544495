use singing_sand::library::{plan_fs_event, track_title, FsAction, FsEventKind};
use singing_sand::model::{LibraryEvent, ScanOutcome, ScanStats};

fn steps(v: &[FsAction]) -> Vec<String> {
    v.iter()
        .map(|a| match a {
            FsAction::Scan(p) => format!("scan {p}"),
            FsAction::Delete(p) => format!("delete {p}"),
        })
        .collect()
}

fn strings(v: &[&str]) -> Vec<String> {
    v.iter().map(|s| s.to_string()).collect()
}

#[test]
fn created_audio_files_are_scanned() {
    let plan = plan_fs_event(FsEventKind::Create, &strings(&["/m/a.mp3", "/m/cover.jpg", "/m/b.FLAC"]));
    assert_eq!(steps(&plan), vec!["scan /m/a.mp3", "scan /m/b.FLAC"]);
}

#[test]
fn removed_audio_files_are_deleted() {
    let plan = plan_fs_event(FsEventKind::Remove, &strings(&["/m/a.ogg", "/m/notes.txt"]));
    assert_eq!(steps(&plan), vec!["delete /m/a.ogg"]);
}

#[test]
fn renames_delete_old_and_scan_new() {
    let plan = plan_fs_event(FsEventKind::RenameBoth, &strings(&["/m/old.mp3", "/m/new.mp3"]));
    assert_eq!(steps(&plan), vec!["delete /m/old.mp3", "scan /m/new.mp3"]);
    let plan = plan_fs_event(FsEventKind::RenameBoth, &strings(&["/m/old.tmp", "/m/new.mp3"]));
    assert_eq!(steps(&plan), vec!["scan /m/new.mp3"]);
    let plan = plan_fs_event(FsEventKind::RenameBoth, &strings(&["/m/old.mp3", "/m/new.part"]));
    assert_eq!(steps(&plan), vec!["delete /m/old.mp3"]);
}

#[test]
fn renames_need_exactly_two_paths() {
    assert!(plan_fs_event(FsEventKind::RenameBoth, &strings(&["/m/a.mp3"])).is_empty());
    assert!(plan_fs_event(FsEventKind::RenameBoth, &strings(&["/a.mp3", "/b.mp3", "/c.mp3"])).is_empty());
}

#[test]
fn other_events_need_nothing() {
    assert!(plan_fs_event(FsEventKind::Other, &strings(&["/m/a.mp3"])).is_empty());
    assert!(plan_fs_event(FsEventKind::Create, &Vec::new()).is_empty());
}

#[test]
fn titles_fall_back_to_file_stem() {
    assert_eq!(track_title(Some("Blue".into()), "/m/x.mp3").as_deref(), Some("Blue"));
    assert_eq!(track_title(None, "/m/Track 01.flac").as_deref(), Some("Track 01"));
    assert_eq!(track_title(None, "/m/a.b.c.ogg").as_deref(), Some("a.b.c"));
    assert_eq!(track_title(None, "/"), None);
}

#[test]
fn scan_statistics_count_outcomes() {
    let mut stats = ScanStats::default();
    assert_eq!((stats.upserted, stats.skipped, stats.errors), (0, 0, 0));
    stats.record(ScanOutcome::Upserted { id: 7, path: "/m/a.mp3".into() });
    stats.record(ScanOutcome::Failed);
    stats.record(ScanOutcome::Upserted { id: 9, path: "/m/b.mp3".into() });
    stats.record(ScanOutcome::Skipped);
    stats.record(ScanOutcome::Skipped);
    assert_eq!((stats.upserted, stats.skipped, stats.errors), (2, 2, 1));
    assert_eq!(
        stats.upserted_tracks,
        vec![(7, "/m/a.mp3".to_string()), (9, "/m/b.mp3".to_string())]
    );
    assert_eq!(stats.upserted, stats.upserted_tracks.len());
}

#[test]
fn library_events_carry_paths() {
    let added = LibraryEvent::TrackAdded { id: 3, path: "/m/a.mp3".into() };
    let removed = LibraryEvent::TrackRemoved("/m/b.mp3".into());
    assert!(matches!(added, LibraryEvent::TrackAdded { id: 3, ref path } if path == "/m/a.mp3"));
    assert!(matches!(removed, LibraryEvent::TrackRemoved(ref p) if p == "/m/b.mp3"));
}
