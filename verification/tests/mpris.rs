use cosmic_media_applet::mpris::adapter::{
    extract_string, is_mpris_name, metadata_to_track, player_name, property_change, reported_state, reported_track,
    starts_with, Metadata, MetadataValue,
};
use cosmic_media_applet::mpris::{panel_title, truncate_chars, PlaybackState, TrackInfo};

fn info(title: &str, artist: &str) -> TrackInfo {
    TrackInfo::new(title.to_string(), artist.to_string(), None, "src".to_string())
}

#[test]
fn track_info_new_has_no_duration_or_file() {
    let t = TrackInfo::new("T".to_string(), "A".to_string(), Some("Al".to_string()), "chrome".to_string());
    assert_eq!(t.title, "T");
    assert_eq!(t.artist, "A");
    assert_eq!(t.album, Some("Al".to_string()));
    assert_eq!(t.source_id, "chrome");
    assert_eq!(t.duration_ms, None);
    assert_eq!(t.file_path, None);
}

#[test]
fn track_info_default_is_empty() {
    let t = TrackInfo::default();
    assert_eq!(t.title, "");
    assert_eq!(t.artist, "");
    assert_eq!(t.album, None);
    assert_eq!(t.source_id, "");
    assert_eq!(t.duration_ms, None);
    assert_eq!(t.file_path, None);
}

#[test]
fn display_text_joins_artist_and_title() {
    assert_eq!(info("Song", "Band").display_text(), "Band \u{2014} Song");
    assert_eq!(info("", "Band").display_text(), "Band");
    assert_eq!(info("Song", "").display_text(), "Song");
    assert_eq!(info("", "").display_text(), "");
}

#[test]
fn clone_keeps_every_field() {
    let mut t = TrackInfo::new("T".to_string(), "A".to_string(), None, "s".to_string());
    t.duration_ms = Some(5);
    t.file_path = Some("/f.mp3".to_string());
    let c = t.clone();
    assert_eq!(c.title, "T");
    assert_eq!(c.duration_ms, Some(5));
    assert_eq!(c.file_path, Some("/f.mp3".to_string()));
}

#[test]
fn status_names_state() {
    assert_eq!(PlaybackState::from_status("Playing"), PlaybackState::Playing);
    assert_eq!(PlaybackState::from_status("Paused"), PlaybackState::Paused);
    assert_eq!(PlaybackState::from_status("Stopped"), PlaybackState::Stopped);
    assert_eq!(PlaybackState::from_status("playing"), PlaybackState::Stopped);
    assert_eq!(PlaybackState::from_status(""), PlaybackState::Stopped);
}

#[test]
fn panel_title_no_media() {
    assert_eq!(panel_title(&None), "No media");
    assert_eq!(panel_title(&Some(info("", ""))), "No media");
    assert_eq!(panel_title(&Some(info("Song", "Band"))), "Band \u{2014} Song");
}

#[test]
fn truncate_by_characters() {
    assert_eq!(truncate_chars("héllo wörld", 5), "héllo");
    assert_eq!(truncate_chars("short", 10), "short");
    assert_eq!(truncate_chars("abc", 0), "");
    assert_eq!(truncate_chars("abc", usize::MAX), "abc");
}

#[test]
fn mpris_bus_names() {
    assert!(is_mpris_name("org.mpris.MediaPlayer2.spotify"));
    assert!(!is_mpris_name("org.freedesktop.DBus"));
    assert!(!is_mpris_name("org.mpris.MediaPlayer2"));
    assert_eq!(player_name("org.mpris.MediaPlayer2.firefox.instance_1_42"), "firefox.instance_1_42");
    assert_eq!(player_name("org.other"), "org.other");
    assert!(starts_with("abc", "ab"));
    assert!(!starts_with("ab", "abc"));
}

fn meta(entries: Vec<(&str, MetadataValue)>) -> Metadata {
    entries.into_iter().map(|(k, v)| (k.to_string(), v)).collect()
}

#[test]
fn metadata_with_artist_list() {
    let m = meta(vec![
        ("xesam:title", MetadataValue::Text("Song".to_string())),
        (
            "xesam:artist",
            MetadataValue::List(vec![Some("A".to_string()), None, Some("B".to_string())]),
        ),
        ("xesam:album", MetadataValue::Text("Album".to_string())),
        ("mpris:length", MetadataValue::Other),
    ]);
    let t = metadata_to_track(&m, "vlc").unwrap();
    assert_eq!(t.title, "Song");
    assert_eq!(t.artist, "A, B");
    assert_eq!(t.album, Some("Album".to_string()));
    assert_eq!(t.source_id, "vlc");
    assert_eq!(t.duration_ms, None);
}

#[test]
fn metadata_with_artist_text_and_no_album() {
    let m = meta(vec![("xesam:artist", MetadataValue::Text("Solo".to_string()))]);
    let t = metadata_to_track(&m, "p").unwrap();
    assert_eq!(t.title, "");
    assert_eq!(t.artist, "Solo");
    assert_eq!(t.album, None);
}

#[test]
fn metadata_without_title_or_artist_is_no_track() {
    let m = meta(vec![
        ("xesam:album", MetadataValue::Text("Album".to_string())),
        ("xesam:title", MetadataValue::Other),
        ("xesam:artist", MetadataValue::List(vec![None])),
    ]);
    assert!(metadata_to_track(&m, "p").is_none());
    assert!(metadata_to_track(&Vec::new(), "p").is_none());
}

#[test]
fn extract_string_only_from_text() {
    assert_eq!(extract_string(Some(&MetadataValue::Text("x".to_string()))), Some("x".to_string()));
    assert_eq!(extract_string(Some(&MetadataValue::Other)), None);
    assert_eq!(extract_string(Some(&MetadataValue::List(vec![Some("x".to_string())]))), None);
    assert_eq!(extract_string(None), None);
}

#[test]
fn property_change_on_player_interface() {
    let status = MetadataValue::Text("Paused".to_string());
    let m = meta(vec![("xesam:title", MetadataValue::Text("T".to_string()))]);
    let c = property_change("org.mpris.MediaPlayer2.Player", Some(&status), Some(&m), "org.mpris.MediaPlayer2.vlc");
    assert_eq!(c.state, Some(PlaybackState::Paused));
    let t = c.track.unwrap();
    assert_eq!(t.title, "T");
    assert_eq!(t.source_id, "org.mpris.MediaPlayer2.vlc");
}

#[test]
fn property_change_ignored_elsewhere_or_without_values() {
    let status = MetadataValue::Text("Playing".to_string());
    let c = property_change("org.mpris.MediaPlayer2", Some(&status), None, "s");
    assert_eq!(c.state, None);
    assert!(c.track.is_none());
    let d = property_change("org.mpris.MediaPlayer2.Player", Some(&MetadataValue::Other), None, "s");
    assert_eq!(d.state, None);
    assert!(d.track.is_none());
    let empty = meta(vec![]);
    let e = property_change("org.mpris.MediaPlayer2.Player", None, Some(&empty), "s");
    assert!(e.track.is_none());
}

#[test]
fn reported_track_prefers_fresh_and_sets_source() {
    let fresh = TrackInfo::new("New".to_string(), "A".to_string(), None, "x".to_string());
    let old = TrackInfo::new("Old".to_string(), "A".to_string(), None, "y".to_string());
    let t = reported_track(Some(fresh), Some(old.clone()), "vlc").unwrap();
    assert_eq!(t.title, "New");
    assert_eq!(t.source_id, "vlc");
    let u = reported_track(None, Some(old), "vlc").unwrap();
    assert_eq!(u.title, "Old");
    assert_eq!(u.source_id, "vlc");
    assert!(reported_track(None, None, "vlc").is_none());
}

#[test]
fn reported_state_falls_back_to_cached() {
    assert_eq!(reported_state(Some("Playing"), PlaybackState::Stopped), PlaybackState::Playing);
    assert_eq!(reported_state(Some("Whatever"), PlaybackState::Paused), PlaybackState::Stopped);
    assert_eq!(reported_state(None, PlaybackState::Paused), PlaybackState::Paused);
}
