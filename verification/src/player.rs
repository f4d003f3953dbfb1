//! The local player's decisions: the playlist position to play next, the
//! track information of a local file, and the progress updates.
use vstd::prelude::*;
use crate::music_db::{TrackStat, TrackRecord};
use crate::mpris::{PlaybackState, TrackInfo, TrackInfoView};
use crate::scan::{file_name, file_stem, file_stem_of};
use crate::text::{copy_string, str_eq, to_owned_string};

verus! {

broadcast use vstd::string::group_string_axioms;

/// The source id of the local player.
pub const LOCAL_PLAYER_ID: &'static str = "local-player";

/// The source id of the local player.
pub open spec fn local_player_id() -> Seq<char> {
    "local-player"@
}

/// The playlist position `next` plays from position `idx` in a playlist of
/// `len` tracks: the following one, never past the last; nothing when that
/// is where it already is, or when no position is known.
pub open spec fn next_spec(len: nat, idx: Option<nat>) -> Option<nat> {
    match idx {
        Some(i) if len > 0 => {
            let n = if i + 1 <= len - 1 {
                i + 1
            } else {
                (len - 1) as nat
            };
            if n != i {
                Some(n)
            } else {
                None
            }
        },
        _ => None,
    }
}

/// The playlist position `previous` plays from position `idx`: the one
/// before (the first one again at the start), if it is in the playlist.
pub open spec fn previous_spec(len: nat, idx: Option<nat>) -> Option<nat> {
    match idx {
        Some(i) => {
            let t = if i == 0 {
                0nat
            } else {
                (i - 1) as nat
            };
            if t < len {
                Some(t)
            } else {
                None
            }
        },
        None => None,
    }
}

/// An optional position as a natural number.
pub open spec fn opt_nat(o: Option<usize>) -> Option<nat> {
    match o {
        Some(i) => Some(i as nat),
        None => None,
    }
}

/// Stepping through a playlist: `next` from a track before the last plays
/// the following one, and `previous` from there comes back; `next` on the
/// last track does nothing; `previous` on the first plays it again.
pub proof fn law_playlist_navigation(len: nat, i: nat)
    ensures
        i + 1 < len ==> next_spec(len, Some(i)) == Some(i + 1) && previous_spec(len, Some(i + 1))
            == Some(i),
        len > 0 ==> next_spec(len, Some((len - 1) as nat)) is None,
        len > 0 ==> previous_spec(len, Some(0nat)) == Some(0nat),
{
}

/// The playlist position `next` plays.
pub fn next_index(len: usize, idx: Option<usize>) -> (r: Option<usize>)
    ensures
        opt_nat(r) == next_spec(len as nat, opt_nat(idx)),
        r matches Some(n) ==> n < len,
{
    match idx {
        Some(i) if len > 0 => {
            let n = if i < len - 1 {
                i + 1
            } else {
                len - 1
            };
            if n != i {
                Some(n)
            } else {
                None
            }
        },
        _ => None,
    }
}

/// The playlist position `previous` plays.
pub fn previous_index(len: usize, idx: Option<usize>) -> (r: Option<usize>)
    ensures
        opt_nat(r) == previous_spec(len as nat, opt_nat(idx)),
        r matches Some(n) ==> n < len,
{
    match idx {
        Some(i) => {
            let t = if i == 0 {
                0
            } else {
                i - 1
            };
            if t < len {
                Some(t)
            } else {
                None
            }
        },
        None => None,
    }
}

/// The value of an optional track.
pub open spec fn opt_record(o: Option<&TrackStat>) -> Option<TrackRecord> {
    match o {
        Some(t) => Some(t@),
        None => None,
    }
}

/// What the local player reports for the file `path`, with its statistics
/// `stat` if the store has them: the stored title (else the file's stem, else
/// "Unknown"), artist and album, its duration if known (not zero).
pub open spec fn local_track_spec(path: Seq<char>, stat: Option<TrackRecord>) -> TrackInfoView {
    let duration: u64 = match stat {
        Some(s) => s.duration_ms,
        None => 0,
    };
    TrackInfoView {
        title: match stat {
            Some(s) => s.title,
            None => match file_name(path) {
                Some(n) => file_stem(n),
                None => "Unknown"@,
            },
        },
        artist: match stat {
            Some(s) => s.artist,
            None => Seq::empty(),
        },
        album: Some(
            match stat {
                Some(s) => s.album,
                None => Seq::empty(),
            },
        ),
        source_id: local_player_id(),
        duration_ms: if duration > 0 {
            Some(duration)
        } else {
            None
        },
        file_path: Some(path),
    }
}

/// The local player's id is `local-player`, and every track it reports
/// carries that id as its source.
pub proof fn law_local_track_source(path: Seq<char>, stat: Option<TrackRecord>)
    ensures
        LOCAL_PLAYER_ID@ == local_player_id(),
        local_track_spec(path, stat).source_id == local_player_id(),
{
}

/// What the local player reports for a file: the file's path and the local
/// player's id always; with statistics, their title, artist and album, and
/// their duration when it is known (not zero); without, the file's stem as
/// title (or `Unknown` for a path that names no file), no artist, an empty
/// album and no duration.
pub proof fn law_local_track(path: Seq<char>, stat: Option<TrackRecord>)
    ensures
        ({
            let t = local_track_spec(path, stat);
            &&& t.file_path == Some(path)
            &&& t.source_id == "local-player"@
            &&& stat matches Some(s) ==> {
                &&& t.title == s.title
                &&& t.artist == s.artist
                &&& t.album == Some(s.album)
                &&& (s.duration_ms > 0 ==> t.duration_ms == Some(s.duration_ms))
                &&& (s.duration_ms == 0 ==> t.duration_ms is None)
            }
            &&& stat is None ==> {
                &&& t.artist.len() == 0
                &&& t.album == Some(Seq::<char>::empty())
                &&& t.duration_ms is None
                &&& (file_name(path) matches Some(n) ==> t.title == file_stem(n))
                &&& (file_name(path) is None ==> t.title == "Unknown"@)
            }
        }),
{
}

/// One progress tick: while playing with output left, the position is the
/// time elapsed (when known), reported with the duration (when known), and
/// playback finishes once it reaches the duration; playing with the output
/// drained finishes playback; in any other state (paused or stopped) the
/// stored position is reported with the duration when it is known, and
/// playback does not finish.
pub proof fn law_progress_tick(state: PlaybackState, sink_empty: bool, elapsed_ms: Option<u64>, stored_ms: u64, duration_ms: Option<u64>)
    ensures
        state != PlaybackState::Playing ==> !progress_spec(state, sink_empty, elapsed_ms, stored_ms, duration_ms).finished
            && progress_spec(state, sink_empty, elapsed_ms, stored_ms, duration_ms).position_ms is None,
        state != PlaybackState::Playing && duration_ms is Some ==> progress_spec(state, sink_empty, elapsed_ms, stored_ms, duration_ms).report
            == Some(ProgressReport { position_ms: stored_ms, duration_ms: duration_ms->0 }),
        duration_ms is None ==> progress_spec(state, sink_empty, elapsed_ms, stored_ms, duration_ms).report is None,
        state == PlaybackState::Playing && sink_empty ==> progress_spec(state, sink_empty, elapsed_ms, stored_ms, duration_ms).finished
            && progress_spec(state, sink_empty, elapsed_ms, stored_ms, duration_ms).report is None
            && progress_spec(state, sink_empty, elapsed_ms, stored_ms, duration_ms).position_ms is None,
        state == PlaybackState::Playing && !sink_empty ==> progress_spec(state, sink_empty, elapsed_ms, stored_ms, duration_ms).position_ms
            == elapsed_ms,
        state == PlaybackState::Playing && !sink_empty && elapsed_ms is Some && duration_ms is Some ==> progress_spec(
            state,
            sink_empty,
            elapsed_ms,
            stored_ms,
            duration_ms,
        ).report == Some(ProgressReport { position_ms: elapsed_ms->0, duration_ms: duration_ms->0 })
            && progress_spec(state, sink_empty, elapsed_ms, stored_ms, duration_ms).finished == (elapsed_ms->0
            >= duration_ms->0),
        state == PlaybackState::Playing && !sink_empty && (elapsed_ms is None || duration_ms is None) ==> progress_spec(
            state,
            sink_empty,
            elapsed_ms,
            stored_ms,
            duration_ms,
        ).report is None && !progress_spec(state, sink_empty, elapsed_ms, stored_ms, duration_ms).finished,
{
}

/// What the local player reports for the file `path` it starts playing.
pub fn local_track_info(path: &str, stat: Option<&TrackStat>) -> (t: TrackInfo)
    ensures
        t@ == local_track_spec(path@, opt_record(stat)),
        t@.file_path == Some(path@),
        t@.source_id == "local-player"@,
{
    let duration_ms: u64 = match stat {
        Some(s) => s.duration_ms,
        None => 0,
    };
    let title = match stat {
        Some(s) => copy_string(&s.title),
        None => match file_stem_of(path) {
            Some(t) => t,
            None => to_owned_string("Unknown"),
        },
    };
    let artist = match stat {
        Some(s) => copy_string(&s.artist),
        None => String::new(),
    };
    let album = match stat {
        Some(s) => copy_string(&s.album),
        None => String::new(),
    };
    TrackInfo {
        title,
        artist,
        album: Some(album),
        source_id: to_owned_string(LOCAL_PLAYER_ID),
        duration_ms: if duration_ms > 0 {
            Some(duration_ms)
        } else {
            None
        },
        file_path: Some(to_owned_string(path)),
    }
}

/// Index of the first track with path `path` in a playlist.
pub open spec fn playlist_position(playlist: Seq<TrackStat>, path: Seq<char>) -> Option<nat>
    decreases playlist.len(),
{
    if playlist.len() == 0 {
        None
    } else {
        match playlist_position(playlist.drop_last(), path) {
            Some(i) => Some(i),
            None => if playlist.last().path@ == path {
                Some((playlist.len() - 1) as nat)
            } else {
                None
            },
        }
    }
}

/// The playlist position after starting the stored track with path
/// `stat_path` (`None` if the store has no such track): where that track is
/// in the playlist, else the position as it was.
pub fn position_after_play(playlist: &Vec<TrackStat>, current: Option<usize>, stat_path: Option<&str>) -> (r: Option<usize>)
    ensures
        opt_nat(r) == match stat_path {
            Some(p) => match playlist_position(playlist@, p@) {
                Some(i) => Some(i),
                None => opt_nat(current),
            },
            None => opt_nat(current),
        },
{
    let p = match stat_path {
        Some(p) => p,
        None => {
            return current;
        },
    };
    let mut i: usize = 0;
    while i < playlist.len()
        invariant
            i <= playlist.len(),
            stat_path == Some(p),
            playlist_position(playlist@.take(i as int), p@) is None,
        decreases playlist.len() - i,
    {
        proof {
            assert(playlist@.take(i + 1).drop_last() =~= playlist@.take(i as int));
        }
        if str_eq(playlist[i].path.as_str(), p) {
            proof {
                assert(playlist@.take(i + 1).last() == playlist@[i as int]);
                lemma_playlist_position_prefix(playlist@, p@, i + 1);
            }
            return Some(i);
        }
        i += 1;
    }
    proof {
        assert(playlist@.take(playlist@.len() as int) =~= playlist@);
    }
    current
}

proof fn lemma_playlist_position_prefix(v: Seq<TrackStat>, p: Seq<char>, n: int)
    requires
        0 <= n <= v.len(),
        playlist_position(v.take(n), p) is Some,
    ensures
        playlist_position(v, p) == playlist_position(v.take(n), p),
    decreases v.len() - n,
{
    if n < v.len() {
        assert(v.take(n + 1).drop_last() =~= v.take(n));
        lemma_playlist_position_prefix(v, p, n + 1);
    } else {
        assert(v.take(n) =~= v);
    }
}

/// A progress report: the position and the track's duration.
#[derive(PartialEq, Eq, Structural, Clone, Copy, Debug)]
pub struct ProgressReport {
    pub position_ms: u64,
    pub duration_ms: u64,
}

/// What one progress tick of the local player does.
#[derive(PartialEq, Eq, Structural, Clone, Copy, Debug)]
pub struct ProgressTick {
    /// The position to store, if it changes.
    pub position_ms: Option<u64>,
    /// The (position, duration) to report, if any.
    pub report: Option<ProgressReport>,
    /// Playback has ended: the state becomes stopped and the ticks end.
    pub finished: bool,
}

/// One progress tick, in playback state `state`, with the output drained or
/// not (`sink_empty`), the time since playback (re)started if known
/// (`elapsed_ms`), the stored position, and the track's duration if known.
/// Playing and drained: finished. Playing: the position is the time elapsed,
/// reported with the duration; finished once it reaches the duration. Not
/// playing: the stored position is reported with the duration.
pub open spec fn progress_spec(state: PlaybackState, sink_empty: bool, elapsed_ms: Option<u64>, stored_ms: u64, duration_ms: Option<u64>) -> ProgressTick {
    if sink_empty && state == PlaybackState::Playing {
        ProgressTick { position_ms: None, report: None, finished: true }
    } else if state == PlaybackState::Playing {
        match elapsed_ms {
            Some(e) => match duration_ms {
                Some(d) => ProgressTick { position_ms: Some(e), report: Some(ProgressReport { position_ms: e, duration_ms: d }), finished: e >= d },
                None => ProgressTick { position_ms: Some(e), report: None, finished: false },
            },
            None => ProgressTick { position_ms: None, report: None, finished: false },
        }
    } else {
        match duration_ms {
            Some(d) => ProgressTick { position_ms: None, report: Some(ProgressReport { position_ms: stored_ms, duration_ms: d }), finished: false },
            None => ProgressTick { position_ms: None, report: None, finished: false },
        }
    }
}

/// One progress tick of the local player.
pub fn progress_tick(state: PlaybackState, sink_empty: bool, elapsed_ms: Option<u64>, stored_ms: u64, duration_ms: Option<u64>) -> (r: ProgressTick)
    ensures
        r == progress_spec(state, sink_empty, elapsed_ms, stored_ms, duration_ms),
        state != PlaybackState::Playing ==> !r.finished && r.position_ms is None && r.report == match duration_ms {
            Some(d) => Some(ProgressReport { position_ms: stored_ms, duration_ms: d }),
            None => None,
        },
{
    if sink_empty && state == PlaybackState::Playing {
        ProgressTick { position_ms: None, report: None, finished: true }
    } else if state == PlaybackState::Playing {
        match elapsed_ms {
            Some(e) => match duration_ms {
                Some(d) => ProgressTick { position_ms: Some(e), report: Some(ProgressReport { position_ms: e, duration_ms: d }), finished: e >= d },
                None => ProgressTick { position_ms: Some(e), report: None, finished: false },
            },
            None => ProgressTick { position_ms: None, report: None, finished: false },
        }
    } else {
        match duration_ms {
            Some(d) => ProgressTick { position_ms: None, report: Some(ProgressReport { position_ms: stored_ms, duration_ms: d }), finished: false },
            None => ProgressTick { position_ms: None, report: None, finished: false },
        }
    }
}

/// The current position: while playing, the time since playback (re)started
/// if known; else the stored position.
pub fn current_position(state: PlaybackState, elapsed_ms: Option<u64>, stored_ms: u64) -> (r: u64)
    ensures
        r == match (state, elapsed_ms) {
            (PlaybackState::Playing, Some(e)) => e,
            _ => stored_ms,
        },
{
    match (state, elapsed_ms) {
        (PlaybackState::Playing, Some(e)) => e,
        _ => stored_ms,
    }
}

/// The state after play/pause: a paused output resumes, anything else
/// pauses.
pub fn play_pause_state(is_paused: bool) -> (r: PlaybackState)
    ensures
        r == if is_paused {
            PlaybackState::Playing
        } else {
            PlaybackState::Paused
        },
{
    if is_paused {
        PlaybackState::Playing
    } else {
        PlaybackState::Paused
    }
}

} // verus!
