//! Commands sent from the UI to the manager.
use vstd::prelude::*;

verus! {

/// The kinds of command the UI sends; the values some of them carry (a
/// position, a volume, a file path) do not change where they go.
#[derive(PartialEq, Eq, Structural, Clone, Copy, Debug)]
pub enum CommandKind {
    /// Go to previous track
    Previous,
    /// Toggle play/pause
    PlayPause,
    /// Skip to next track
    Next,
    /// Stop playback
    Stop,
    /// Set playback position (milliseconds)
    SetPosition,
    /// Set volume
    SetVolume,
    /// Scan music folder and update stats
    ScanMusic,
    /// Play a specific track from the popup (file path)
    PlayTrack,
    /// Toggle favorite for a track
    ToggleFavorite,
}

impl CommandKind {
    /// Commands that the active media source carries out.
    pub open spec fn is_media_control(self) -> bool {
        match self {
            CommandKind::Previous | CommandKind::PlayPause | CommandKind::Next | CommandKind::Stop
            | CommandKind::SetPosition | CommandKind::SetVolume => true,
            _ => false,
        }
    }
}

} // verus!
