//! What a media source reports: its track and its playback state.
use vstd::prelude::*;
use crate::text::{concat, copy_string, str_eq, to_owned_string};

pub mod adapter;

verus! {

broadcast use vstd::string::group_string_axioms;

/// Information about a media track.
#[derive(Debug)]
pub struct TrackInfo {
    /// Track title
    pub title: String,
    /// Track artist
    pub artist: String,
    /// Track album
    pub album: Option<String>,
    /// Unique source identifier (e.g. "chrome.instance123", "local-player")
    pub source_id: String,
    /// Track duration in milliseconds
    pub duration_ms: Option<u64>,
    /// Absolute file path for local tracks (None for MPRIS sources)
    pub file_path: Option<String>,
}

/// The value of a [`TrackInfo`].
pub struct TrackInfoView {
    pub title: Seq<char>,
    pub artist: Seq<char>,
    pub album: Option<Seq<char>>,
    pub source_id: Seq<char>,
    pub duration_ms: Option<u64>,
    pub file_path: Option<Seq<char>>,
}

/// The characters of an optional string.
pub open spec fn opt_string_view(o: Option<String>) -> Option<Seq<char>> {
    match o {
        Some(s) => Some(s@),
        None => None,
    }
}

fn copy_opt_string(o: &Option<String>) -> (r: Option<String>)
    ensures
        opt_string_view(r) == opt_string_view(*o),
{
    match o {
        Some(s) => Some(copy_string(s)),
        None => None,
    }
}

impl View for TrackInfo {
    type V = TrackInfoView;

    open spec fn view(&self) -> TrackInfoView {
        TrackInfoView {
            title: self.title@,
            artist: self.artist@,
            album: opt_string_view(self.album),
            source_id: self.source_id@,
            duration_ms: self.duration_ms,
            file_path: opt_string_view(self.file_path),
        }
    }
}

impl Clone for TrackInfo {
    fn clone(&self) -> (r: Self)
        ensures
            r@ == self@,
    {
        TrackInfo {
            title: copy_string(&self.title),
            artist: copy_string(&self.artist),
            album: copy_opt_string(&self.album),
            source_id: copy_string(&self.source_id),
            duration_ms: self.duration_ms,
            file_path: copy_opt_string(&self.file_path),
        }
    }
}

impl TrackInfo {
    /// Creates a new `TrackInfo` with no duration and no file path.
    pub fn new(title: String, artist: String, album: Option<String>, source_id: String) -> (t: Self)
        ensures
            t@ == (TrackInfoView {
                title: title@,
                artist: artist@,
                album: opt_string_view(album),
                source_id: source_id@,
                duration_ms: None,
                file_path: None,
            }),
    {
        Self { title, artist, album, source_id, duration_ms: None, file_path: None }
    }

    /// How the track is shown: "artist — title", or whichever of the two is
    /// not empty.
    pub fn display_text(&self) -> (r: String)
        ensures
            r@ == display_spec(self@.artist, self@.title),
    {
        let has_artist = !self.artist.as_str().is_empty();
        let has_title = !self.title.as_str().is_empty();
        if has_artist && has_title {
            let a = concat(self.artist.as_str(), " \u{2014} ");
            concat(a.as_str(), self.title.as_str())
        } else if has_artist {
            copy_string(&self.artist)
        } else if has_title {
            copy_string(&self.title)
        } else {
            String::new()
        }
    }
}

/// How a track is shown: "artist — title" (with an em dash), or whichever of
/// the two is not empty, or nothing.
pub open spec fn display_spec(artist: Seq<char>, title: Seq<char>) -> Seq<char> {
    if artist.len() > 0 && title.len() > 0 {
        artist + " \u{2014} "@ + title
    } else if artist.len() > 0 {
        artist
    } else {
        title
    }
}

impl Default for TrackInfo {
    fn default() -> (t: Self)
        ensures
            t@ == (TrackInfoView {
                title: Seq::empty(),
                artist: Seq::empty(),
                album: None,
                source_id: Seq::empty(),
                duration_ms: None,
                file_path: None,
            }),
    {
        Self {
            title: String::new(),
            artist: String::new(),
            album: None,
            source_id: String::new(),
            duration_ms: None,
            file_path: None,
        }
    }
}

/// Playback state of a media source.
#[derive(Debug, Clone, Copy, PartialEq, Eq, Structural)]
pub enum PlaybackState {
    /// Track is currently playing
    Playing,
    /// Track is paused
    Paused,
    /// No track is playing
    Stopped,
}

/// The state an MPRIS `PlaybackStatus` names: "Playing", "Paused", anything
/// else is stopped.
pub open spec fn status_state(status: Seq<char>) -> PlaybackState {
    if status == "Playing"@ {
        PlaybackState::Playing
    } else if status == "Paused"@ {
        PlaybackState::Paused
    } else {
        PlaybackState::Stopped
    }
}

impl PlaybackState {
    /// The state an MPRIS `PlaybackStatus` value names.
    pub fn from_status(status: &str) -> (r: PlaybackState)
        ensures
            r == status_state(status@),
    {
        if str_eq(status, "Playing") {
            PlaybackState::Playing
        } else if str_eq(status, "Paused") {
            PlaybackState::Paused
        } else {
            PlaybackState::Stopped
        }
    }
}

/// What the panel shows for a track: its display text, or "No media" when
/// there is no track or its text is empty.
pub open spec fn panel_title_spec(track: Option<TrackInfoView>) -> Seq<char> {
    match track {
        Some(t) if display_spec(t.artist, t.title).len() > 0 => display_spec(t.artist, t.title),
        _ => "No media"@,
    }
}

/// The value of an optional track.
pub open spec fn opt_track_view(t: Option<TrackInfo>) -> Option<TrackInfoView> {
    match t {
        Some(x) => Some(x@),
        None => None,
    }
}

/// What the panel shows for the current track.
pub fn panel_title(track: &Option<TrackInfo>) -> (r: String)
    ensures
        r@ == panel_title_spec(opt_track_view(*track)),
{
    match track {
        Some(t) => {
            let text = t.display_text();
            if text.as_str().is_empty() {
                to_owned_string("No media")
            } else {
                text
            }
        },
        None => to_owned_string("No media"),
    }
}

/// The first `max_chars` characters of `s`.
pub fn truncate_chars(s: &str, max_chars: usize) -> (r: String)
    ensures
        r@ == if s@.len() <= max_chars {
            s@
        } else {
            s@.take(max_chars as int)
        },
{
    let v = crate::text::chars_of(s);
    if v.len() <= max_chars {
        to_owned_string(s)
    } else {
        crate::text::string_of_range(&v, 0, max_chars)
    }
}

} // verus!
