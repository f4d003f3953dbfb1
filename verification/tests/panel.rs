use cosmic_media_applet::mpris::{PlaybackState, TrackInfo};
use cosmic_media_applet::panel::{panel_after_event, play_icon, scan_age, PanelEvent, ScanAge};

#[test]
fn play_icon_by_state() {
    assert_eq!(play_icon(PlaybackState::Playing), "media-playback-pause-symbolic");
    assert_eq!(play_icon(PlaybackState::Paused), "media-playback-start-symbolic");
    assert_eq!(play_icon(PlaybackState::Stopped), "media-playback-start-symbolic");
}

#[test]
fn scan_age_in_days() {
    assert_eq!(scan_age(1_000_000, 0), ScanAge::Never);
    assert_eq!(scan_age(1_000_000, 1_000_000), ScanAge::Today);
    assert_eq!(scan_age(1_000_000, 1_000_000 - 86_399), ScanAge::Today);
    assert_eq!(scan_age(1_000_000, 1_000_000 - 86_400), ScanAge::DaysAgo(1));
    assert_eq!(scan_age(1_000_000, 1_000_000 - 3 * 86_400 - 5), ScanAge::DaysAgo(3));
}

fn t(title: &str) -> TrackInfo {
    TrackInfo::new(title.to_string(), "A".to_string(), None, "s".to_string())
}

#[test]
fn state_change_keeps_cached_track() {
    let r = panel_after_event(
        PanelEvent::StateChanged(PlaybackState::Paused),
        Some(t("shown")),
        PlaybackState::Playing,
        Some((Some(t("cached")), PlaybackState::Playing)),
    )
    .unwrap();
    assert_eq!(r.0.unwrap().title, "cached");
    assert_eq!(r.1, PlaybackState::Paused);
    let before_ready =
        panel_after_event(PanelEvent::StateChanged(PlaybackState::Stopped), Some(t("shown")), PlaybackState::Playing, None)
            .unwrap();
    assert_eq!(before_ready.0.unwrap().title, "shown");
    assert_eq!(before_ready.1, PlaybackState::Stopped);
}

#[test]
fn track_change_keeps_state() {
    let r = panel_after_event(PanelEvent::TrackChanged(t("new")), None, PlaybackState::Playing, None).unwrap();
    assert_eq!(r.0.unwrap().title, "new");
    assert_eq!(r.1, PlaybackState::Playing);
}

#[test]
fn source_list_change_shows_cached_or_nothing() {
    let r = panel_after_event(
        PanelEvent::SourceListChanged,
        Some(t("shown")),
        PlaybackState::Playing,
        Some((None, PlaybackState::Paused)),
    )
    .unwrap();
    assert!(r.0.is_none());
    assert_eq!(r.1, PlaybackState::Paused);
    let e = panel_after_event(PanelEvent::SourceListChanged, Some(t("shown")), PlaybackState::Playing, None).unwrap();
    assert!(e.0.is_none());
    assert_eq!(e.1, PlaybackState::Stopped);
    assert!(panel_after_event(PanelEvent::Other, None, PlaybackState::Playing, None).is_none());
}
