//! What the panel shows besides the title: the play/pause icon and how long
//! ago the music folder was scanned.
use vstd::prelude::*;
use crate::mpris::{PlaybackState, TrackInfo, TrackInfoView, opt_track_view};
use crate::text::to_owned_string;

verus! {

broadcast use vstd::string::group_string_axioms;

/// The icon of the play/pause button: pause while playing, else play.
pub open spec fn play_icon_spec(state: PlaybackState) -> Seq<char> {
    if state == PlaybackState::Playing {
        "media-playback-pause-symbolic"@
    } else {
        "media-playback-start-symbolic"@
    }
}

/// The icon of the play/pause button in playback state `state`.
pub fn play_icon(state: PlaybackState) -> (r: String)
    ensures
        r@ == play_icon_spec(state),
{
    if state == PlaybackState::Playing {
        to_owned_string("media-playback-pause-symbolic")
    } else {
        to_owned_string("media-playback-start-symbolic")
    }
}

/// How long ago the music folder was scanned.
#[derive(PartialEq, Eq, Structural, Clone, Copy, Debug)]
pub enum ScanAge {
    /// It never was.
    Never,
    /// Less than a day ago.
    Today,
    /// This many whole days ago.
    DaysAgo(u64),
}

/// The scan age at Unix time `now` of a scan at Unix time `last_scanned`
/// (0: never).
pub open spec fn scan_age_spec(now: u64, last_scanned: u64) -> ScanAge {
    if last_scanned == 0 {
        ScanAge::Never
    } else if (now - last_scanned) / 86400 == 0 {
        ScanAge::Today
    } else {
        ScanAge::DaysAgo(((now - last_scanned) / 86400) as u64)
    }
}

/// The scan age at Unix time `now` (not before the scan) of a scan at Unix
/// time `last_scanned` (0: never).
pub fn scan_age(now: u64, last_scanned: u64) -> (r: ScanAge)
    requires
        last_scanned != 0 ==> last_scanned <= now,
    ensures
        r == scan_age_spec(now, last_scanned),
{
    if last_scanned == 0 {
        ScanAge::Never
    } else {
        let days = (now - last_scanned) / 86400;
        if days == 0 {
            ScanAge::Today
        } else {
            ScanAge::DaysAgo(days)
        }
    }
}

/// What a media event tells the panel.
pub enum PanelEvent {
    /// The playback state changed.
    StateChanged(PlaybackState),
    /// The track changed.
    TrackChanged(TrackInfo),
    /// The list of sources changed.
    SourceListChanged,
    /// Anything else (position, volume, statistics).
    Other,
}

/// The track shown after a state change: the manager's cached track once it
/// is ready, else the one shown.
pub open spec fn track_after_state(shown: Option<TrackInfoView>, cached: Option<(Option<TrackInfoView>, PlaybackState)>) -> Option<TrackInfoView> {
    match cached {
        Some(c) => c.0,
        None => shown,
    }
}

/// The value of an optional cached track and state.
pub open spec fn opt_cached_view(c: Option<(Option<TrackInfo>, PlaybackState)>) -> Option<(Option<TrackInfoView>, PlaybackState)> {
    match c {
        Some((t, s)) => Some((opt_track_view(t), s)),
        None => None,
    }
}

/// The track and state the panel shows after `event`, from those it shows
/// (`shown_track`, `shown_state`) and the manager's cached ones (`cached`,
/// `None` before the manager is ready); `None` when the event changes
/// nothing. A state change keeps the (cached) track with the new state; a
/// new track keeps the state; a change of the sources shows the cached track
/// and state (nothing and stopped before the manager is ready).
pub fn panel_after_event(
    event: PanelEvent,
    shown_track: Option<TrackInfo>,
    shown_state: PlaybackState,
    cached: Option<(Option<TrackInfo>, PlaybackState)>,
) -> (r: Option<(Option<TrackInfo>, PlaybackState)>)
    ensures
        match event {
            PanelEvent::StateChanged(s) => r matches Some((t, st)) && st == s && opt_track_view(t)
                == track_after_state(opt_track_view(shown_track), opt_cached_view(cached)),
            PanelEvent::TrackChanged(n) => r matches Some((t, st)) && st == shown_state && opt_track_view(t)
                == Some(n@),
            PanelEvent::SourceListChanged => r matches Some((t, st)) && match opt_cached_view(cached) {
                Some(c) => opt_track_view(t) == c.0 && st == c.1,
                None => t is None && st == PlaybackState::Stopped,
            },
            PanelEvent::Other => r is None,
        },
{
    match event {
        PanelEvent::StateChanged(s) => {
            let t = match cached {
                Some((c, _)) => c,
                None => shown_track,
            };
            Some((t, s))
        },
        PanelEvent::TrackChanged(n) => Some((Some(n), shown_state)),
        PanelEvent::SourceListChanged => match cached {
            Some((c, st)) => Some((c, st)),
            None => Some((None, PlaybackState::Stopped)),
        },
        PanelEvent::Other => None,
    }
}

} // verus!
