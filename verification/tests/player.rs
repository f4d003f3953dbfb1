use cosmic_media_applet::music_db::TrackStat;
use cosmic_media_applet::mpris::PlaybackState;
use cosmic_media_applet::player::{
    current_position, local_track_info, next_index, play_pause_state, position_after_play, previous_index,
    progress_tick, ProgressReport, ProgressTick, LOCAL_PLAYER_ID,
};

fn stat(path: &str, title: &str, duration_ms: u64) -> TrackStat {
    TrackStat {
        path: path.to_string(),
        title: title.to_string(),
        artist: "Artist".to_string(),
        album: "Album".to_string(),
        duration_ms,
        play_count: 0,
        is_favorite: false,
        last_played: 0,
    }
}

#[test]
fn next_moves_forward_and_stops_at_last() {
    assert_eq!(next_index(3, Some(0)), Some(1));
    assert_eq!(next_index(3, Some(1)), Some(2));
    assert_eq!(next_index(3, Some(2)), None);
    assert_eq!(next_index(3, Some(7)), Some(2));
    assert_eq!(next_index(0, Some(0)), None);
    assert_eq!(next_index(3, None), None);
}

#[test]
fn previous_moves_back_and_replays_first() {
    assert_eq!(previous_index(3, Some(2)), Some(1));
    assert_eq!(previous_index(3, Some(0)), Some(0));
    assert_eq!(previous_index(0, Some(0)), None);
    assert_eq!(previous_index(3, Some(9)), None);
    assert_eq!(previous_index(3, None), None);
}

#[test]
fn previous_undoes_next() {
    for i in 0..4usize {
        let n = next_index(5, Some(i)).unwrap();
        assert_eq!(previous_index(5, Some(n)), Some(i));
    }
}

#[test]
fn local_track_from_store() {
    let s = stat("/m/a/x.mp3", "Stored Title", 90_000);
    let t = local_track_info("/m/a/x.mp3", Some(&s));
    assert_eq!(t.title, "Stored Title");
    assert_eq!(t.artist, "Artist");
    assert_eq!(t.album, Some("Album".to_string()));
    assert_eq!(t.source_id, LOCAL_PLAYER_ID);
    assert_eq!(t.duration_ms, Some(90_000));
    assert_eq!(t.file_path, Some("/m/a/x.mp3".to_string()));
}

#[test]
fn local_track_without_store_uses_file_stem() {
    let t = local_track_info("/m/a/My Song.ogg", None);
    assert_eq!(t.title, "My Song");
    assert_eq!(t.artist, "");
    assert_eq!(t.album, Some(String::new()));
    assert_eq!(t.source_id, "local-player");
    assert_eq!(t.duration_ms, None);
    let u = local_track_info("/", None);
    assert_eq!(u.title, "Unknown");
}

#[test]
fn local_track_zero_duration_is_unknown() {
    let s = stat("/m/x.mp3", "X", 0);
    assert_eq!(local_track_info("/m/x.mp3", Some(&s)).duration_ms, None);
}

#[test]
fn position_follows_played_track_in_playlist() {
    let playlist = vec![stat("/a", "A", 1), stat("/b", "B", 1), stat("/b", "B2", 1)];
    assert_eq!(position_after_play(&playlist, Some(0), Some("/b")), Some(1));
    assert_eq!(position_after_play(&playlist, Some(0), Some("/zzz")), Some(0));
    assert_eq!(position_after_play(&playlist, None, Some("/zzz")), None);
    assert_eq!(position_after_play(&playlist, Some(2), None), Some(2));
}

#[test]
fn progress_while_playing() {
    let t = progress_tick(PlaybackState::Playing, false, Some(1500), 0, Some(3000));
    assert_eq!(
        t,
        ProgressTick {
            position_ms: Some(1500),
            report: Some(ProgressReport { position_ms: 1500, duration_ms: 3000 }),
            finished: false
        }
    );
    let end = progress_tick(PlaybackState::Playing, false, Some(3000), 0, Some(3000));
    assert!(end.finished);
    let no_dur = progress_tick(PlaybackState::Playing, false, Some(10), 0, None);
    assert_eq!(no_dur, ProgressTick { position_ms: Some(10), report: None, finished: false });
}

#[test]
fn progress_when_output_drained() {
    let t = progress_tick(PlaybackState::Playing, true, Some(10), 5, Some(3000));
    assert_eq!(t, ProgressTick { position_ms: None, report: None, finished: true });
    let paused = progress_tick(PlaybackState::Paused, true, Some(10), 5, Some(3000));
    assert!(!paused.finished);
}

#[test]
fn progress_when_paused_reports_stored_position() {
    let t = progress_tick(PlaybackState::Paused, false, Some(999), 1234, Some(5000));
    assert_eq!(
        t,
        ProgressTick {
            position_ms: None,
            report: Some(ProgressReport { position_ms: 1234, duration_ms: 5000 }),
            finished: false
        }
    );
}

#[test]
fn position_now() {
    assert_eq!(current_position(PlaybackState::Playing, Some(70), 5), 70);
    assert_eq!(current_position(PlaybackState::Playing, None, 5), 5);
    assert_eq!(current_position(PlaybackState::Paused, Some(70), 5), 5);
}

#[test]
fn play_pause_toggles() {
    assert_eq!(play_pause_state(true), PlaybackState::Playing);
    assert_eq!(play_pause_state(false), PlaybackState::Paused);
}
