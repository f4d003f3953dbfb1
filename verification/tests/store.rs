use cosmic_media_applet::albums::album_listing;
use cosmic_media_applet::music_db::{lowercased_query, AlbumInfo, MusicStatsDb, TrackStat};
use cosmic_media_applet::pattern::has_wildcard;
use cosmic_media_applet::order::SortMode;

fn track(path: &str, title: &str, artist: &str, album: &str, plays: u64, fav: bool) -> TrackStat {
    TrackStat {
        path: path.to_string(),
        title: title.to_string(),
        artist: artist.to_string(),
        album: album.to_string(),
        duration_ms: 1000,
        play_count: plays,
        is_favorite: fav,
        last_played: 0,
    }
}

fn sample_db() -> MusicStatsDb {
    let mut db = MusicStatsDb::new();
    db.insert_track(track("/m/a/one.mp3", "One", "Alpha", "a", 3, false));
    db.insert_track(track("/m/a/two.mp3", "Two", "Alpha", "a", 7, true));
    db.insert_track(track("/m/b/three.flac", "Three", "Beta", "b", 7, false));
    db.insert_track(track("/m/b/four.ogg", "four", "Beta", "b", 0, true));
    db
}

fn titles(v: &[TrackStat]) -> Vec<String> {
    v.iter().map(|t| t.title.clone()).collect()
}

#[test]
fn new_store_is_empty() {
    let db = MusicStatsDb::new();
    assert_eq!(db.len(), 0);
    assert_eq!(db.get_stats(), (0, 0, 0));
    assert_eq!(db.get_playback_state(), Some((None, 0, "stopped".to_string())));
    assert!(db.get_tracks_sorted(SortMode::NameAsc).is_empty());
}

#[test]
fn stats_round_trip() {
    let mut db = sample_db();
    db.set_stats(12, 3, 1_700_000_000);
    assert_eq!(db.get_stats(), (12, 3, 1_700_000_000));
    assert_eq!(db.len(), 4);
}

#[test]
fn playback_state_round_trip() {
    let mut db = sample_db();
    db.save_playback_state(Some("/m/a/one.mp3"), 4321, "paused");
    assert_eq!(
        db.get_playback_state(),
        Some((Some("/m/a/one.mp3".to_string()), 4321, "paused".to_string()))
    );
    db.save_playback_state(None, 0, "stopped");
    assert_eq!(db.get_playback_state(), Some((None, 0, "stopped".to_string())));
    assert_eq!(db.len(), 4);
}

#[test]
fn insert_then_lookup_finds_track() {
    let mut db = sample_db();
    let t = db.get_track_by_path("/m/b/three.flac").unwrap();
    assert_eq!(t.title, "Three");
    assert_eq!(t.play_count, 7);
    assert!(db.get_track_by_path("/m/none.mp3").is_none());
    assert!(db.contains_path("/m/a/one.mp3"));
    assert!(!db.contains_path("/m/a/one"));
}

#[test]
fn insert_replaces_same_path() {
    let mut db = sample_db();
    db.insert_track(track("/m/a/one.mp3", "Uno", "Alpha", "a", 9, true));
    assert_eq!(db.len(), 4);
    let t = db.get_track_by_path("/m/a/one.mp3").unwrap();
    assert_eq!(t.title, "Uno");
    assert_eq!(t.play_count, 9);
}

#[test]
fn toggle_favorite_flips_and_twice_restores() {
    let mut db = sample_db();
    db.toggle_favorite("/m/a/one.mp3");
    assert!(db.get_track_by_path("/m/a/one.mp3").unwrap().is_favorite);
    assert!(db.get_track_by_path("/m/a/two.mp3").unwrap().is_favorite);
    db.toggle_favorite("/m/a/one.mp3");
    assert!(!db.get_track_by_path("/m/a/one.mp3").unwrap().is_favorite);
    db.toggle_favorite("/m/unknown.mp3");
    assert_eq!(db.len(), 4);
}

#[test]
fn increment_play_count_counts_and_stamps() {
    let mut db = sample_db();
    assert!(db.increment_play_count("/m/a/one.mp3", 555));
    let t = db.get_track_by_path("/m/a/one.mp3").unwrap();
    assert_eq!(t.play_count, 4);
    assert_eq!(t.last_played, 555);
    let other = db.get_track_by_path("/m/a/two.mp3").unwrap();
    assert_eq!(other.play_count, 7);
    assert_eq!(other.last_played, 0);
    assert!(db.increment_play_count("/m/missing.mp3", 1));
}

#[test]
fn increment_play_count_refuses_at_largest_count() {
    let mut db = MusicStatsDb::new();
    db.insert_track(track("/m/x.mp3", "X", "", "m", i64::MAX as u64, false));
    assert!(!db.increment_play_count("/m/x.mp3", 9));
    let t = db.get_track_by_path("/m/x.mp3").unwrap();
    assert_eq!(t.play_count, i64::MAX as u64);
    assert_eq!(t.last_played, 0);
}

#[test]
fn delete_removes_only_that_track() {
    let mut db = sample_db();
    db.delete_track("/m/a/two.mp3");
    assert_eq!(db.len(), 3);
    assert!(db.get_track_by_path("/m/a/two.mp3").is_none());
    assert!(db.get_track_by_path("/m/a/one.mp3").is_some());
    db.delete_track("/m/a/two.mp3");
    assert_eq!(db.len(), 3);
}

#[test]
fn store_then_delete_restores_listing() {
    let mut db = sample_db();
    let before = titles(&db.get_tracks_sorted(SortMode::NameAsc));
    db.insert_track(track("/m/c/new.mp3", "New", "Gamma", "c", 1, false));
    assert_eq!(db.len(), 5);
    db.delete_track("/m/c/new.mp3");
    assert_eq!(titles(&db.get_tracks_sorted(SortMode::NameAsc)), before);
}

#[test]
fn sorted_by_title_bytes() {
    let db = sample_db();
    // Byte order: upper-case letters come before lower-case ones.
    assert_eq!(titles(&db.get_tracks_sorted(SortMode::NameAsc)), vec!["One", "Three", "Two", "four"]);
    assert_eq!(titles(&db.get_tracks_sorted(SortMode::NameDesc)), vec!["four", "Two", "Three", "One"]);
}

#[test]
fn sorted_by_play_count_with_title_ties() {
    let db = sample_db();
    assert_eq!(titles(&db.get_tracks_sorted_by_play_count()), vec!["Three", "Two", "One", "four"]);
    assert_eq!(titles(&db.get_tracks_sorted(SortMode::PlayCountDesc)), vec!["Three", "Two", "One", "four"]);
    assert_eq!(titles(&db.get_tracks_sorted(SortMode::PlayCountAsc)), vec!["four", "One", "Three", "Two"]);
}

#[test]
fn search_matches_title_artist_album_case_insensitively() {
    let db = sample_db();
    assert_eq!(titles(&db.search_tracks("tw")), vec!["Two"]);
    assert_eq!(titles(&db.search_tracks("BETA")), vec!["Three", "four"]);
    assert_eq!(titles(&db.search_tracks("o")), vec!["Two", "One", "four"]);
    assert!(db.search_tracks("zzz").is_empty());
    assert_eq!(db.search_tracks("").len(), 4);
}

#[test]
fn search_wildcards_act_as_like_patterns() {
    let db = sample_db();
    assert_eq!(titles(&db.search_tracks("t_o")), vec!["Two"]);
    assert_eq!(titles(&db.search_tracks("h%e")), vec!["Three"]);
}

#[test]
fn album_tracks_by_title() {
    let db = sample_db();
    assert_eq!(titles(&db.get_tracks_in_album("b")), vec!["Three", "four"]);
    assert!(db.get_tracks_in_album("B").is_empty());
}

#[test]
fn favorites_most_played_first() {
    let db = sample_db();
    assert_eq!(titles(&db.get_favorite_tracks()), vec!["Two", "four"]);
}

fn album_names(v: &[AlbumInfo]) -> Vec<(String, usize)> {
    v.iter().map(|a| (a.album.clone(), a.track_count)).collect()
}

#[test]
fn albums_grouped_and_counted() {
    let db = sample_db();
    let albums = db.get_albums().unwrap();
    assert_eq!(album_names(&albums), vec![("a".to_string(), 2), ("b".to_string(), 2)]);
    assert_eq!(albums[0].directory, "a");
    assert_eq!(albums[0].artist, "Alpha");
    let total: usize = albums.iter().map(|a| a.track_count).sum();
    assert_eq!(total, db.len());
}

#[test]
fn albums_sorted_by_total_plays() {
    let mut db = sample_db();
    db.insert_track(track("/m/c/x.mp3", "X", "Gamma", "c", 100, false));
    let desc = db.get_albums_sorted(SortMode::PlayCountDesc).unwrap();
    assert_eq!(album_names(&desc), vec![("c".to_string(), 1), ("a".to_string(), 2), ("b".to_string(), 2)]);
    let asc = db.get_albums_sorted(SortMode::PlayCountAsc).unwrap();
    assert_eq!(album_names(&asc), vec![("b".to_string(), 2), ("a".to_string(), 2), ("c".to_string(), 1)]);
    let by_name_desc = db.get_albums_sorted(SortMode::NameDesc).unwrap();
    assert_eq!(album_names(&by_name_desc), vec![("c".to_string(), 1), ("b".to_string(), 2), ("a".to_string(), 2)]);
}

#[test]
fn album_listed_once_whatever_its_artists() {
    let mut db = MusicStatsDb::new();
    db.insert_track(track("/m/x/1.mp3", "1", "A", "x", 0, false));
    db.insert_track(track("/m/x/2.mp3", "2", "B", "x", 0, false));
    db.insert_track(track("/m/x/3.mp3", "3", "A", "x", 0, false));
    db.insert_track(track("/m/y/1.mp3", "1", "B", "y", 0, false));
    let albums = db.get_albums().unwrap();
    assert_eq!(album_names(&albums), vec![("x".to_string(), 3), ("y".to_string(), 1)]);
    assert_eq!(albums[0].artist, "A");
    assert_eq!(albums[0].directory, "x");
    assert_eq!(albums[1].artist, "B");
}

#[test]
fn album_plays_beyond_store_sum_give_none() {
    let mut db = MusicStatsDb::new();
    db.insert_track(track("/m/x/1.mp3", "1", "A", "x", i64::MAX as u64, false));
    db.insert_track(track("/m/x/2.mp3", "2", "A", "x", 1, false));
    assert!(db.get_albums().is_none());
    let mut tracks = Vec::new();
    tracks.push(track("/m/y/1.mp3", "1", "A", "y", 2, false));
    assert_eq!(album_listing(&tracks, SortMode::NameAsc).unwrap().len(), 1);
}

#[test]
fn db_path_under_data_home() {
    assert_eq!(MusicStatsDb::db_path("/home/u/.local/share"), "/home/u/.local/share/cosmic-media-applet/music_stats.db");
}

#[test]
fn search_lowercases_the_query_beyond_ascii() {
    let mut db = MusicStatsDb::new();
    db.insert_track(track("/m/c/1.mp3", "café au lait", "", "c", 0, false));
    db.insert_track(track("/m/c/2.mp3", "CAFÉ NOIR", "", "c", 0, false));
    // The query is lower-cased (É becomes é); stored titles are matched
    // without regard to case for ASCII letters only.
    assert_eq!(titles(&db.search_tracks("CAFÉ")), vec!["café au lait"]);
}

#[test]
fn search_with_lowercased_query() {
    let db = sample_db();
    assert_eq!(titles(&db.search_lowercased("alpha")), vec!["Two", "One"]);
    // An upper-case query letter still matches, as `LIKE` ignores ASCII case.
    assert_eq!(titles(&db.search_lowercased("FOUR")), vec!["four"]);
    assert!(db.search_lowercased("é").is_empty());
}

#[test]
fn lowercased_query_and_wildcards() {
    assert_eq!(lowercased_query("BeTa 42"), "beta 42");
    assert_eq!(lowercased_query("ÉCOLE"), "école");
    assert!(!has_wildcard(&lowercased_query("Alpha")));
    assert!(has_wildcard("a%b"));
    assert!(has_wildcard("t_o"));
    assert!(!has_wildcard(""));
}

#[test]
fn open_keeps_rows_read_back() {
    let rows = vec![
        track("/m/a/one.mp3", "One", "Alpha", "a", 3, false),
        track("/m/a/two.mp3", "Two", "Alpha", "a", 7, true),
    ];
    let db = MusicStatsDb::open(rows);
    assert_eq!(db.len(), 2);
    assert_eq!(db.get_track_by_path("/m/a/two.mp3").unwrap().play_count, 7);
    assert_eq!(db.get_stats(), (0, 0, 0));
    let again = MusicStatsDb::open(db.get_tracks_sorted(SortMode::NameAsc));
    assert_eq!(titles(&again.get_tracks_sorted(SortMode::NameAsc)), vec!["One", "Two"]);
    let dup = MusicStatsDb::open(vec![track("/x", "A", "", "", 1, false), track("/x", "B", "", "", 2, false)]);
    assert_eq!(dup.len(), 1);
    assert_eq!(dup.get_track_by_path("/x").unwrap().title, "B");
}
