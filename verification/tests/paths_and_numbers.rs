use singing_sand::num::{parse_i64, parse_u8, push_decimal};
use singing_sand::paths::{check_duplicate_dir, dir_prefix, file_name, file_stem, is_audio_file};

#[test]
fn audio_extensions_are_recognised() {
    for p in [
        "/m/a.mp3", "/m/a.flac", "/m/a.ogg", "/m/a.opus", "/m/a.wav", "/m/a.aiff", "/m/a.aif",
        "/m/a.m4a", "/m/a.wv", "/m/a.ape",
    ] {
        assert!(is_audio_file(p), "{p}");
    }
    assert!(!is_audio_file("/m/cover.jpg"));
    assert!(!is_audio_file("/m/notes.txt"));
    assert!(!is_audio_file("/m/README"));
    assert!(!is_audio_file("/m/.mp3"));
    assert!(!is_audio_file(""));
}

#[test]
fn audio_extension_ignores_case() {
    assert!(is_audio_file("/m/Song.MP3"));
    assert!(is_audio_file("/m/Song.Flac"));
    assert!(is_audio_file("relative/x.WaV"));
}

#[test]
fn audio_extension_is_the_last_one() {
    assert!(is_audio_file("/m/a.tar.mp3"));
    assert!(!is_audio_file("/m/a.mp3.bak"));
    assert!(is_audio_file("/m/album.mp3/"));
}

#[test]
fn file_names_follow_path_rules() {
    assert_eq!(file_name("/music/a/song.mp3").as_deref(), Some("song.mp3"));
    assert_eq!(file_name("/music/a/").as_deref(), Some("a"));
    assert_eq!(file_name("/music/a/.").as_deref(), Some("a"));
    assert_eq!(file_name("song.flac").as_deref(), Some("song.flac"));
    assert_eq!(file_name("/"), None);
    assert_eq!(file_name("/music/.."), None);
    assert_eq!(file_name(""), None);
}

#[test]
fn file_stems_follow_path_rules() {
    assert_eq!(file_stem("/music/a/song.mp3").as_deref(), Some("song"));
    assert_eq!(file_stem("/music/a/archive.tar.gz").as_deref(), Some("archive.tar"));
    assert_eq!(file_stem("/music/.hidden").as_deref(), Some(".hidden"));
    assert_eq!(file_stem("/music/noext").as_deref(), Some("noext"));
    assert_eq!(file_stem("/"), None);
}

#[test]
fn duplicate_directory_is_refused() {
    let existing = vec!["/music".to_string(), "/data/audio/".to_string()];
    let msg = "This directory is already in your library.";
    assert_eq!(check_duplicate_dir("/music", &existing).as_deref(), Some(msg));
    assert_eq!(check_duplicate_dir("/music/", &existing).as_deref(), Some(msg));
    assert_eq!(check_duplicate_dir("/music/rock", &existing).as_deref(), Some(msg));
    assert_eq!(check_duplicate_dir("/data", &existing).as_deref(), Some(msg));
    assert_eq!(check_duplicate_dir("/data/audio", &existing).as_deref(), Some(msg));
}

#[test]
fn unrelated_directory_is_accepted() {
    let existing = vec!["/music".to_string()];
    assert_eq!(check_duplicate_dir("/musicals", &existing), None);
    assert_eq!(check_duplicate_dir("/mus", &existing), None);
    assert_eq!(check_duplicate_dir("/other", &Vec::new()), None);
}

#[test]
fn duplicate_check_is_symmetric() {
    let a = "/music/rock";
    let b = "/music";
    assert_eq!(
        check_duplicate_dir(a, &vec![b.to_string()]).is_some(),
        check_duplicate_dir(b, &vec![a.to_string()]).is_some()
    );
    let c = "/musicals";
    assert_eq!(
        check_duplicate_dir(c, &vec![b.to_string()]).is_some(),
        check_duplicate_dir(b, &vec![c.to_string()]).is_some()
    );
}

#[test]
fn directory_prefix_ends_in_one_separator() {
    assert_eq!(dir_prefix("/foo"), "/foo/");
    assert_eq!(dir_prefix("/foo/"), "/foo/");
    assert_eq!(dir_prefix(""), "/");
}

#[test]
fn unsigned_byte_parsing() {
    assert_eq!(parse_u8("0"), Some(0));
    assert_eq!(parse_u8("255"), Some(255));
    assert_eq!(parse_u8("+8"), Some(8));
    assert_eq!(parse_u8("007"), Some(7));
    assert_eq!(parse_u8("256"), None);
    assert_eq!(parse_u8("-0"), None);
    assert_eq!(parse_u8(""), None);
    assert_eq!(parse_u8("+"), None);
    assert_eq!(parse_u8(" 1"), None);
    assert_eq!(parse_u8("1a"), None);
    for s in ["0", "9", "42", "+3", "255", "256", "-1", "x"] {
        assert_eq!(parse_u8(s), s.parse::<u8>().ok(), "{s}");
    }
}

#[test]
fn signed_parsing() {
    assert_eq!(parse_i64("42"), Some(42));
    assert_eq!(parse_i64("-42"), Some(-42));
    assert_eq!(parse_i64("+42"), Some(42));
    assert_eq!(parse_i64("9223372036854775807"), Some(i64::MAX));
    assert_eq!(parse_i64("-9223372036854775808"), Some(i64::MIN));
    assert_eq!(parse_i64("9223372036854775808"), None);
    assert_eq!(parse_i64("-9223372036854775809"), None);
    assert_eq!(parse_i64("99999999999999999999999"), None);
    assert_eq!(parse_i64("-"), None);
    assert_eq!(parse_i64("1.0"), None);
    for s in ["0", "-0", "17", "-17", "+5", "12x", "", "--1"] {
        assert_eq!(parse_i64(s), s.parse::<i64>().ok(), "{s}");
    }
}

#[test]
fn decimal_text() {
    let mut s = String::from("n=");
    push_decimal(&mut s, 0);
    assert_eq!(s, "n=0");
    let mut t = String::new();
    push_decimal(&mut t, 1234567890);
    assert_eq!(t, "1234567890");
    let mut u = String::new();
    push_decimal(&mut u, u64::MAX);
    assert_eq!(u, u64::MAX.to_string());
}

#[test]
fn stored_bytes_read_back() {
    for n in 0..=255u8 {
        let mut s = String::new();
        push_decimal(&mut s, u64::from(n));
        assert_eq!(parse_u8(&s), Some(n));
    }
}
