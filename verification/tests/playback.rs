use soundcloud_desktop::playback::{
    band_shape, is_playing, media_event_name, next_channel, seek_offset_secs, BandShape,
    MediaControl, SinkProbe, SinkState, TickAction, TrackFlags,
};

#[test]
fn no_track_reports_nothing() {
    let mut f = TrackFlags::new();
    assert_eq!(f.on_tick(SinkProbe::Drained), TickAction::Idle);
    assert_eq!(f.on_tick(SinkProbe::Busy), TickAction::Idle);
}

#[test]
fn end_is_reported_once_per_track() {
    let mut f = TrackFlags::new();
    f.on_load();
    assert_eq!(f.on_tick(SinkProbe::Busy), TickAction::Position);
    assert_eq!(f.on_tick(SinkProbe::Drained), TickAction::Ended);
    assert_eq!(f.on_tick(SinkProbe::Drained), TickAction::Idle);
    assert_eq!(f.on_tick(SinkProbe::Busy), TickAction::Position);
    assert_eq!(f.on_tick(SinkProbe::Drained), TickAction::Idle);
    f.on_load();
    assert_eq!(f.on_tick(SinkProbe::Drained), TickAction::Ended);
}

#[test]
fn stop_silences_ticks() {
    let mut f = TrackFlags::new();
    f.on_load();
    f.on_stop();
    assert_eq!(f.on_tick(SinkProbe::Drained), TickAction::Idle);
    assert_eq!(f.on_tick(SinkProbe::Absent), TickAction::Idle);
}

#[test]
fn playing_needs_an_unpaused_sink_with_audio() {
    assert!(!is_playing(None));
    assert!(is_playing(Some(SinkState { paused: false, empty: false })));
    assert!(!is_playing(Some(SinkState { paused: true, empty: false })));
    assert!(!is_playing(Some(SinkState { paused: false, empty: true })));
}

#[test]
fn media_events() {
    assert_eq!(media_event_name(MediaControl::Play), Some("media:play"));
    assert_eq!(media_event_name(MediaControl::Pause), Some("media:pause"));
    assert_eq!(media_event_name(MediaControl::Toggle), Some("media:toggle"));
    assert_eq!(media_event_name(MediaControl::Next), Some("media:next"));
    assert_eq!(media_event_name(MediaControl::Previous), Some("media:prev"));
    assert_eq!(media_event_name(MediaControl::SetPosition), Some("media:seek"));
    assert_eq!(media_event_name(MediaControl::SeekForward), Some("media:seek-relative"));
    assert_eq!(media_event_name(MediaControl::SeekBackward), Some("media:seek-relative"));
    assert_eq!(media_event_name(MediaControl::Other), None);
    assert_eq!(seek_offset_secs(true), 10);
    assert_eq!(seek_offset_secs(false), -10);
}

#[test]
fn eq_band_shapes() {
    assert_eq!(band_shape(0), BandShape::LowShelf);
    assert_eq!(band_shape(1), BandShape::Peaking);
    assert_eq!(band_shape(8), BandShape::Peaking);
    assert_eq!(band_shape(9), BandShape::HighShelf);
}

#[test]
fn channels_rotate() {
    assert_eq!(next_channel(0, 2), 1);
    assert_eq!(next_channel(1, 2), 0);
    assert_eq!(next_channel(0, 1), 0);
}
