use soundcloud_desktop::track_cache::{
    filename_to_urn, is_cached_len, is_valid_audio, urn_to_filename, MIN_AUDIO_SIZE,
};

fn sized(prefix: &[u8], len: usize) -> Vec<u8> {
    let mut v = prefix.to_vec();
    v.resize(len, 0);
    v
}

#[test]
fn urn_to_filename_replaces_colons() {
    assert_eq!(urn_to_filename("soundcloud:tracks:123"), "soundcloud_tracks_123.audio");
    assert_eq!(urn_to_filename(""), ".audio");
    assert_eq!(urn_to_filename("ünï:cödé"), "ünï_cödé.audio");
}

#[test]
fn filename_to_urn_restores_colons() {
    assert_eq!(
        filename_to_urn("soundcloud_tracks_123.audio"),
        Some("soundcloud:tracks:123".to_string())
    );
    assert_eq!(filename_to_urn(".audio"), Some(String::new()));
    assert_eq!(filename_to_urn("track.mp3"), None);
    assert_eq!(filename_to_urn("audio"), None);
    assert_eq!(filename_to_urn("x.audio.tmp"), None);
}

#[test]
fn urn_round_trips_through_file_name() {
    for urn in ["soundcloud:tracks:1", "a:b:c", "plain", "ü:ñ"] {
        assert_eq!(filename_to_urn(&urn_to_filename(urn)), Some(urn.to_string()));
    }
}

#[test]
fn underscore_in_urn_does_not_round_trip() {
    assert_eq!(filename_to_urn(&urn_to_filename("a_b")), Some("a:b".to_string()));
}

#[test]
fn short_data_is_never_valid_audio() {
    assert!(!is_valid_audio(&sized(b"ID3", 8191)));
    assert!(!is_valid_audio(&[]));
}

#[test]
fn each_signature_is_accepted() {
    let n = MIN_AUDIO_SIZE as usize;
    assert!(is_valid_audio(&sized(b"ID3", n)));
    assert!(is_valid_audio(&sized(&[0xff, 0xfb], n)));
    assert!(is_valid_audio(&sized(&[0xff, 0xe0], n)));
    assert!(is_valid_audio(&sized(b"\0\0\0\x20ftyp", n)));
    assert!(is_valid_audio(&sized(b"OggS", n)));
    assert!(is_valid_audio(&sized(b"RIFF", n)));
    assert!(is_valid_audio(&sized(b"fLaC", n)));
}

#[test]
fn unknown_signature_is_rejected() {
    let n = MIN_AUDIO_SIZE as usize;
    assert!(!is_valid_audio(&sized(b"<html>", n)));
    assert!(!is_valid_audio(&sized(&[0xff, 0xdf], n)));
    assert!(!is_valid_audio(&sized(b"ID", n)));
}

#[test]
fn cached_len_threshold() {
    assert!(!is_cached_len(None));
    assert!(!is_cached_len(Some(8191)));
    assert!(is_cached_len(Some(8192)));
    assert!(is_cached_len(Some(1 << 40)));
}
