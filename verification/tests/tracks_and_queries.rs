use singing_sand::model::{Playlist, Tag, TagDto};
use singing_sand::query::{
    art_track_id, in_placeholders, like_pattern, next_playlist_position, parse_playlist_node_kind,
    plan_track_search, split_band_blob, split_mono_blob, PlaylistNodeKind, TrackQuery,
};
use singing_sand::tracks::{expanded_track, find_adjacent_track, format_duration, playlist_chips, tag_chips};

#[test]
fn durations_are_minutes_and_two_digit_seconds() {
    assert_eq!(format_duration(0), "0:00");
    assert_eq!(format_duration(59), "0:59");
    assert_eq!(format_duration(60), "1:00");
    assert_eq!(format_duration(125), "2:05");
    assert_eq!(format_duration(3600), "60:00");
    assert_eq!(format_duration(3725), "62:05");
}

#[test]
fn next_and_previous_wrap_around() {
    let ids = vec![10, 20, 30];
    assert_eq!(find_adjacent_track(&ids, 10, 1), Some(20));
    assert_eq!(find_adjacent_track(&ids, 30, 1), Some(10));
    assert_eq!(find_adjacent_track(&ids, 10, -1), Some(30));
    assert_eq!(find_adjacent_track(&ids, 20, -1), Some(10));
    assert_eq!(find_adjacent_track(&ids, 99, 1), None);
    assert_eq!(find_adjacent_track(&Vec::new(), 1, 1), None);
    assert_eq!(find_adjacent_track(&vec![7], 7, 1), Some(7));
    assert_eq!(find_adjacent_track(&vec![7], 7, -1), Some(7));
}

#[test]
fn next_then_previous_returns_to_start() {
    let ids = vec![4, 8, 15, 16, 23, 42];
    for &id in &ids {
        let next = find_adjacent_track(&ids, id, 1).unwrap();
        assert_eq!(find_adjacent_track(&ids, next, -1), Some(id));
    }
}

#[test]
fn adjacent_uses_first_occurrence() {
    let ids = vec![1, 2, 1, 3];
    assert_eq!(find_adjacent_track(&ids, 1, 1), Some(2));
    assert_eq!(find_adjacent_track(&ids, 1, -1), Some(3));
}

#[test]
fn expanded_row_collects_chips_notes_and_duration() {
    let tags = vec![
        Tag { id: 1, name: "chill".into(), color: "#abc".into() },
        Tag { id: 2, name: "loud".into(), color: "#def".into() },
    ];
    let playlists = vec![Playlist { id: 5, name: "Road".into() }];
    let dto = expanded_track(&tags, &playlists, Some("great intro".into()), Some(185));
    let tag_view: Vec<_> = dto.tags.iter().map(|t| (t.id, t.name.clone(), t.color.clone())).collect();
    assert_eq!(
        tag_view,
        vec![(1, "chill".to_string(), "#abc".to_string()), (2, "loud".to_string(), "#def".to_string())]
    );
    assert_eq!(dto.playlists.len(), 1);
    assert_eq!(dto.playlists[0].id, 5);
    assert_eq!(dto.playlists[0].name, "Road");
    assert_eq!(dto.notes, "great intro");
    assert_eq!(dto.duration_formatted, "3:05");
}

#[test]
fn expanded_row_without_notes_or_duration() {
    let dto = expanded_track(&Vec::new(), &Vec::new(), None, None);
    assert!(dto.tags.is_empty());
    assert!(dto.playlists.is_empty());
    assert_eq!(dto.notes, "");
    assert_eq!(dto.duration_formatted, "");
}

#[test]
fn chips_keep_order() {
    let tags = vec![Tag { id: 3, name: "c".into(), color: "red".into() }];
    assert_eq!(tag_chips(&tags)[0].color, "red");
    let pls = vec![Playlist { id: 9, name: "x".into() }, Playlist { id: 8, name: "y".into() }];
    let ids: Vec<i64> = playlist_chips(&pls).iter().map(|p| p.id).collect();
    assert_eq!(ids, vec![9, 8]);
}

#[test]
fn tag_dto_copies_the_tag() {
    let t = Tag { id: 4, name: "n".into(), color: "c".into() };
    let d = TagDto::from(&t);
    assert_eq!((d.id, d.name.as_str(), d.color.as_str()), (4, "n", "c"));
}

#[test]
fn search_without_query_lists_the_view() {
    assert!(matches!(plan_track_search("", 0, 0, ""), TrackQuery::All));
    assert!(matches!(plan_track_search("", 1, 0, "/m"), TrackQuery::InDir(d) if d == "/m"));
    assert!(matches!(plan_track_search("", 2, 7, ""), TrackQuery::InPlaylist(7)));
    assert!(matches!(plan_track_search("", 3, 9, ""), TrackQuery::WithTag(9)));
    assert!(matches!(plan_track_search("", 4, 9, ""), TrackQuery::Nothing));
}

#[test]
fn search_with_query_filters_the_view() {
    assert!(matches!(plan_track_search("abc", 0, 0, ""), TrackQuery::AllFiltered(q) if q == "abc"));
    assert!(matches!(
        plan_track_search("abc", 1, 0, "/m"),
        TrackQuery::InDirFiltered(d, q) if d == "/m" && q == "abc"
    ));
    assert!(matches!(
        plan_track_search("x", 2, 7, ""),
        TrackQuery::InPlaylistFiltered(7, q) if q == "x"
    ));
    assert!(matches!(
        plan_track_search("x", 3, 2, ""),
        TrackQuery::WithTagFiltered(2, q) if q == "x"
    ));
    assert!(matches!(plan_track_search("x", 200, 2, ""), TrackQuery::Nothing));
}

#[test]
fn sql_text_helpers() {
    assert_eq!(like_pattern("beat"), "%beat%");
    assert_eq!(like_pattern(""), "%%");
    assert_eq!(in_placeholders(0), "");
    assert_eq!(in_placeholders(1), "?");
    assert_eq!(in_placeholders(3), "?, ?, ?");
}

#[test]
fn appended_tracks_go_after_the_last() {
    assert_eq!(next_playlist_position(None), 0);
    assert_eq!(next_playlist_position(Some(0)), 1);
    assert_eq!(next_playlist_position(Some(41)), 42);
    assert_eq!(next_playlist_position(Some(-5)), -4);
}

#[test]
fn band_blobs_split_into_buckets() {
    let bytes: Vec<u8> = (0u8..24).collect();
    let v = split_band_blob(&bytes).unwrap();
    assert_eq!(v.len(), 2);
    assert_eq!(v[0], [0, 1, 2, 3, 4, 5, 6, 7, 8, 9, 10, 11]);
    assert_eq!(v[1][11], 23);
    assert_eq!(split_band_blob(&vec![0u8; 8]), None);
    assert_eq!(split_band_blob(&Vec::new()), Some(Vec::new()));
    let f = 0.25f32.to_le_bytes();
    let blob: Vec<u8> = [f, f, f].concat();
    let b = split_band_blob(&blob).unwrap();
    assert_eq!(f32::from_le_bytes([b[0][4], b[0][5], b[0][6], b[0][7]]), 0.25);
}

#[test]
fn mono_blobs_split_into_samples() {
    let v = split_mono_blob(&vec![1, 2, 3, 4, 5, 6, 7, 8, 9]);
    assert_eq!(v, vec![[1, 2, 3, 4], [5, 6, 7, 8]]);
    assert_eq!(split_mono_blob(&vec![1, 2, 3]), Vec::<[u8; 4]>::new());
}

#[test]
fn art_urls_name_a_track() {
    assert_eq!(art_track_id("art://localhost/42"), Some(42));
    assert_eq!(art_track_id("art://localhost:/7"), Some(7));
    assert_eq!(art_track_id("art://localhost/a/b/13"), Some(13));
    assert_eq!(art_track_id("art://localhost/x"), None);
    assert_eq!(art_track_id("art://localhost/"), None);
    assert_eq!(art_track_id("art://localhost/-3"), Some(-3));
}

#[test]
fn playlist_node_kinds() {
    assert_eq!(parse_playlist_node_kind("playlist"), Some(PlaylistNodeKind::Playlist));
    assert_eq!(parse_playlist_node_kind("group"), Some(PlaylistNodeKind::Group));
    assert_eq!(parse_playlist_node_kind("folder"), None);
}
