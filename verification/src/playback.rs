use vstd::prelude::*;

verus! {

/// What the tick timer finds of the player's output sink.
#[derive(Clone, Copy, Debug, PartialEq, Eq)]
pub enum SinkProbe {
    /// No sink: nothing was loaded, or playback was stopped.
    Absent,
    /// The sink has played everything queued in it.
    Drained,
    /// The sink still has audio queued.
    Busy,
}

/// What one tick of the timer reports to the front end.
#[derive(Clone, Copy, Debug, PartialEq, Eq)]
pub enum TickAction {
    /// Nothing to report.
    Idle,
    /// The track has ended.
    Ended,
    /// The playback position, which the caller reads from the sink.
    Position,
}

/// Whether a track is loaded, and whether its end was reported.
#[derive(Clone, Copy, Debug, PartialEq, Eq)]
pub struct TrackFlags {
    pub has_track: bool,
    pub ended_notified: bool,
}

/// The report of one tick and the flags after it: nothing without a track
/// or a sink; the end once, when the sink has drained; the position while
/// it plays.
pub open spec fn tick_step(f: TrackFlags, probe: SinkProbe) -> (TickAction, TrackFlags) {
    if !f.has_track {
        (TickAction::Idle, f)
    } else {
        match probe {
            SinkProbe::Absent => (TickAction::Idle, f),
            SinkProbe::Drained => (
                if f.ended_notified {
                    TickAction::Idle
                } else {
                    TickAction::Ended
                },
                TrackFlags { ended_notified: true, ..f },
            ),
            SinkProbe::Busy => (TickAction::Position, f),
        }
    }
}

impl TrackFlags {
    /// No track loaded.
    pub fn new() -> (f: Self)
        ensures
            !f.has_track && !f.ended_notified,
    {
        TrackFlags { has_track: false, ended_notified: false }
    }

    /// A new track replaced the old one: its end is still to be reported.
    pub fn on_load(&mut self)
        ensures
            final(self).has_track && !final(self).ended_notified,
    {
        self.has_track = true;
        self.ended_notified = false;
    }

    /// Playback was stopped and the track unloaded.
    pub fn on_stop(&mut self)
        ensures
            !final(self).has_track,
            final(self).ended_notified == old(self).ended_notified,
    {
        self.has_track = false;
    }

    /// One tick of the timer.
    pub fn on_tick(&mut self, probe: SinkProbe) -> (action: TickAction)
        ensures
            (action, *final(self)) == tick_step(*old(self), probe),
    {
        if !self.has_track {
            return TickAction::Idle;
        }
        match probe {
            SinkProbe::Absent => TickAction::Idle,
            SinkProbe::Drained => {
                let already = self.ended_notified;
                self.ended_notified = true;
                if already {
                    TickAction::Idle
                } else {
                    TickAction::Ended
                }
            },
            SinkProbe::Busy => TickAction::Position,
        }
    }
}

/// Something that happens to the flags other than loading a track.
#[derive(Clone, Copy, Debug, PartialEq, Eq)]
pub enum FlagEvent {
    Tick(SinkProbe),
    Stop,
}

/// The flags after an event.
pub open spec fn flags_after(f: TrackFlags, e: FlagEvent) -> TrackFlags {
    match e {
        FlagEvent::Tick(p) => tick_step(f, p).1,
        FlagEvent::Stop => TrackFlags { has_track: false, ..f },
    }
}

/// The flags after a run of events.
pub open spec fn flags_after_all(f: TrackFlags, es: Seq<FlagEvent>) -> TrackFlags
    decreases es.len(),
{
    if es.len() == 0 {
        f
    } else {
        flags_after(flags_after_all(f, es.drop_last()), es.last())
    }
}

/// How many times the end is reported over a run of events.
pub open spec fn ends_reported(f: TrackFlags, es: Seq<FlagEvent>) -> int
    decreases es.len(),
{
    if es.len() == 0 {
        0
    } else {
        let before = flags_after_all(f, es.drop_last());
        ends_reported(f, es.drop_last()) + match es.last() {
            FlagEvent::Tick(p) => if tick_step(before, p).0 == TickAction::Ended {
                1int
            } else {
                0
            },
            FlagEvent::Stop => 0,
        }
    }
}

/// Between two loads the end of the track is reported at most once, and
/// not at all once it has been reported.
pub proof fn lemma_end_reported_once(f: TrackFlags, es: Seq<FlagEvent>)
    ensures
        ends_reported(f, es) <= 1,
        f.ended_notified ==> ends_reported(f, es) == 0,
        ends_reported(f, es) == 1 ==> flags_after_all(f, es).ended_notified,
    decreases es.len(),
{
    if es.len() > 0 {
        lemma_end_reported_once(f, es.drop_last());
        lemma_no_end_without_track(f, es.drop_last());
    }
}

/// Without a track the flags report nothing and keep their end flag.
proof fn lemma_no_end_without_track(f: TrackFlags, es: Seq<FlagEvent>)
    ensures
        !f.has_track ==> !flags_after_all(f, es).has_track && flags_after_all(f, es).ended_notified
            == f.ended_notified && ends_reported(f, es) == 0,
        f.ended_notified ==> flags_after_all(f, es).ended_notified,
    decreases es.len(),
{
    if es.len() > 0 {
        lemma_no_end_without_track(f, es.drop_last());
    }
}

/// The state of an output sink, where there is one.
#[derive(Clone, Copy, Debug, PartialEq, Eq)]
pub struct SinkState {
    pub paused: bool,
    pub empty: bool,
}

/// Whether audio is playing: a sink exists, is not paused, and has audio
/// queued.
pub fn is_playing(sink: Option<SinkState>) -> (playing: bool)
    ensures
        playing == (sink matches Some(s) && !s.paused && !s.empty),
{
    match sink {
        Some(s) => !s.paused && !s.empty,
        None => false,
    }
}

/// A command of the operating system's media controls.
#[derive(Clone, Copy, Debug, PartialEq, Eq)]
pub enum MediaControl {
    Play,
    Pause,
    Toggle,
    Next,
    Previous,
    SetPosition,
    SeekForward,
    SeekBackward,
    Other,
}

/// The front-end event that a media control command is forwarded as.
pub open spec fn media_event(c: MediaControl) -> Option<Seq<char>> {
    match c {
        MediaControl::Play => Some("media:play"@),
        MediaControl::Pause => Some("media:pause"@),
        MediaControl::Toggle => Some("media:toggle"@),
        MediaControl::Next => Some("media:next"@),
        MediaControl::Previous => Some("media:prev"@),
        MediaControl::SetPosition => Some("media:seek"@),
        MediaControl::SeekForward => Some("media:seek-relative"@),
        MediaControl::SeekBackward => Some("media:seek-relative"@),
        MediaControl::Other => None,
    }
}

/// The name of the front-end event for a media control command; `None`
/// for commands that are not forwarded.
pub fn media_event_name(c: MediaControl) -> (name: Option<&'static str>)
    ensures
        match name {
            Some(n) => media_event(c) == Some(n@),
            None => media_event(c) is None,
        },
{
    match c {
        MediaControl::Play => Some("media:play"),
        MediaControl::Pause => Some("media:pause"),
        MediaControl::Toggle => Some("media:toggle"),
        MediaControl::Next => Some("media:next"),
        MediaControl::Previous => Some("media:prev"),
        MediaControl::SetPosition => Some("media:seek"),
        MediaControl::SeekForward => Some("media:seek-relative"),
        MediaControl::SeekBackward => Some("media:seek-relative"),
        MediaControl::Other => None,
    }
}

/// The relative seek, in seconds, of the media controls' seek commands:
/// ten seconds forward or back.
pub fn seek_offset_secs(forward: bool) -> (secs: i32)
    ensures
        secs == (if forward {
            10int
        } else {
            -10int
        }),
{
    if forward {
        10
    } else {
        -10
    }
}

/// The number of equaliser bands.
pub const EQ_BANDS: usize = 10;

/// The filter shape of an equaliser band.
#[derive(Clone, Copy, Debug, PartialEq, Eq)]
pub enum BandShape {
    LowShelf,
    Peaking,
    HighShelf,
}

/// The lowest band is a low shelf, the highest a high shelf, and the bands
/// between are peaking filters.
pub fn band_shape(band: usize) -> (shape: BandShape)
    requires
        band < EQ_BANDS,
    ensures
        shape == (if band == 0 {
            BandShape::LowShelf
        } else if band == EQ_BANDS - 1 {
            BandShape::HighShelf
        } else {
            BandShape::Peaking
        }),
{
    if band == 0 {
        BandShape::LowShelf
    } else if band == EQ_BANDS - 1 {
        BandShape::HighShelf
    } else {
        BandShape::Peaking
    }
}

/// The channel of the sample after one of channel `ch`, in interleaved
/// audio of `channels` channels.
pub fn next_channel(ch: u16, channels: u16) -> (next: u16)
    requires
        channels > 0,
        ch < channels,
    ensures
        next == (ch + 1) % (channels as int),
{
    ((ch as u32 + 1) % channels as u32) as u16
}

} // verus!
