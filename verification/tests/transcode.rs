use soundcloud_desktop::transcode::{
    ffmpeg_args, ffmpeg_failure, ffprobe_args, hq_dir_name, ogg_name, sq_dir_name, TranscodeError,
};

#[test]
fn output_names() {
    assert_eq!(ogg_name("abc123"), "abc123.ogg");
    assert_eq!(hq_dir_name(), "hq");
    assert_eq!(sq_dir_name(), "sq");
}

#[test]
fn ffmpeg_command_line() {
    let args = ffmpeg_args("/in/x.wav", "/s/hq/x.ogg", "/s/sq/x.ogg");
    let expected = [
        "-y", "-i", "/in/x.wav",
        "-map", "0:a:0", "-c:a", "libopus", "-b:a", "256k", "-vbr", "on",
        "-compression_level", "10", "-application", "audio", "/s/hq/x.ogg",
        "-map", "0:a:0", "-c:a", "libopus", "-b:a", "128k", "-vbr", "on",
        "-compression_level", "10", "-application", "audio", "/s/sq/x.ogg",
    ];
    assert_eq!(args, expected.iter().map(|s| s.to_string()).collect::<Vec<_>>());
}

#[test]
fn ffprobe_command_line() {
    let args = ffprobe_args("/in/x.wav");
    let expected = ["-v", "quiet", "-show_entries", "format=duration", "-of", "csv=p=0", "/in/x.wav"];
    assert_eq!(args, expected.iter().map(|s| s.to_string()).collect::<Vec<_>>());
}

#[test]
fn ffmpeg_failure_codes() {
    assert!(matches!(ffmpeg_failure(Some(1)), TranscodeError::FfmpegFailed(1)));
    assert!(matches!(ffmpeg_failure(None), TranscodeError::FfmpegFailed(-1)));
}

#[test]
fn io_error_variant() {
    let e = TranscodeError::Io(std::io::Error::new(std::io::ErrorKind::NotFound, "gone"));
    assert!(matches!(e, TranscodeError::Io(_)));
}
