use cosmic_media_applet::error::AppError;
use cosmic_media_applet::manager::{
    adopts_source, filter_mpris_names, plan_sources, reselect_target, route_target, scan_outcome, source_reaction,
    forward_steps, ActiveSelector, ForwardStep, RouteTarget, SourceEvent, SourceReaction, TrackUpdate,
};
use cosmic_media_applet::message::CommandKind;
use cosmic_media_applet::mpris::{PlaybackState, TrackInfo};
use cosmic_media_applet::mpris::PlaybackState::{Paused, Playing, Stopped};

fn strings(v: &[&str]) -> Vec<String> {
    v.iter().map(|s| s.to_string()).collect()
}

#[test]
fn only_mpris_names_kept_in_order() {
    let names = strings(&[
        "org.freedesktop.DBus",
        "org.mpris.MediaPlayer2.vlc",
        ":1.42",
        "org.mpris.MediaPlayer2.spotify",
    ]);
    assert_eq!(
        filter_mpris_names(&names),
        strings(&["org.mpris.MediaPlayer2.vlc", "org.mpris.MediaPlayer2.spotify"])
    );
    assert!(filter_mpris_names(&Vec::new()).is_empty());
}

#[test]
fn plan_keeps_local_player_and_live_sources() {
    let existing = strings(&["local-player", "vlc", "gone"]);
    let names = strings(&["org.mpris.MediaPlayer2.vlc", "org.mpris.MediaPlayer2.spotify"]);
    let plan = plan_sources(&existing, &names);
    assert_eq!(plan.keep, vec![true, true, false]);
    assert_eq!(plan.add, vec![1]);
}

#[test]
fn plan_adds_each_new_player() {
    let plan = plan_sources(&Vec::new(), &strings(&["org.mpris.MediaPlayer2.a", "org.mpris.MediaPlayer2.b"]));
    assert!(plan.keep.is_empty());
    assert_eq!(plan.add, vec![0, 1]);
}

#[test]
fn plan_drops_everything_but_local_player_when_bus_is_empty() {
    let plan = plan_sources(&strings(&["a", "local-player"]), &Vec::new());
    assert_eq!(plan.keep, vec![false, true]);
    assert!(plan.add.is_empty());
}

fn select(states: &[PlaybackState]) -> (Option<usize>, usize) {
    let mut sel = ActiveSelector::new();
    for s in states {
        sel.observe(*s);
        if sel.decided() {
            break;
        }
    }
    (sel.choice(), sel.seen())
}

#[test]
fn first_playing_source_wins_and_stops_the_look() {
    assert_eq!(select(&[Paused, Stopped, Playing, Playing]), (Some(2), 3));
    assert_eq!(select(&[Playing, Paused]), (Some(0), 1));
}

#[test]
fn first_paused_source_when_none_plays() {
    assert_eq!(select(&[Stopped, Paused, Paused]), (Some(1), 3));
}

#[test]
fn no_source_when_all_stopped() {
    assert_eq!(select(&[Stopped, Stopped]), (None, 2));
    assert_eq!(select(&[]), (None, 0));
}

#[test]
fn reselect_keeps_current_when_target_same() {
    let ids = strings(&["local-player", "vlc"]);
    assert_eq!(reselect_target(&ids, Some(1), None, Some("vlc")), None);
    assert_eq!(reselect_target(&ids, Some(1), None, Some("local-player")), Some(Some(1)));
}

#[test]
fn reselect_falls_back_to_priority_then_local_then_first() {
    let ids = strings(&["vlc", "local-player", "spotify"]);
    assert_eq!(reselect_target(&ids, None, Some("spotify"), None), Some(Some(2)));
    assert_eq!(reselect_target(&ids, None, Some("unknown"), None), Some(Some(1)));
    assert_eq!(reselect_target(&ids, None, None, Some("vlc")), Some(Some(1)));
    let others = strings(&["vlc", "spotify"]);
    assert_eq!(reselect_target(&others, None, None, None), Some(Some(0)));
    assert_eq!(reselect_target(&others, None, None, Some("vlc")), None);
}

#[test]
fn reselect_with_no_sources() {
    assert_eq!(reselect_target(&Vec::new(), None, Some("x"), Some("vlc")), Some(None));
    assert_eq!(reselect_target(&Vec::new(), None, None, None), None);
}

#[test]
fn source_reporting_state_adopted_when_no_active_or_same() {
    assert!(adopts_source(None, "vlc"));
    assert!(adopts_source(Some("vlc"), "vlc"));
    assert!(!adopts_source(Some("spotify"), "vlc"));
}

#[test]
fn commands_routed() {
    assert_eq!(route_target(CommandKind::ScanMusic, false, false).unwrap(), RouteTarget::ScanMusic);
    assert_eq!(route_target(CommandKind::PlayTrack, true, false).unwrap(), RouteTarget::LocalPlayer);
    assert_eq!(route_target(CommandKind::ToggleFavorite, true, true).unwrap(), RouteTarget::LocalPlayer);
    assert_eq!(route_target(CommandKind::ToggleFavorite, false, true).unwrap(), RouteTarget::Store);
    for kind in [
        CommandKind::Previous,
        CommandKind::PlayPause,
        CommandKind::Next,
        CommandKind::Stop,
        CommandKind::SetPosition,
        CommandKind::SetVolume,
    ] {
        assert_eq!(route_target(kind, false, true).unwrap(), RouteTarget::ActiveSource);
        assert!(matches!(route_target(kind, true, false), Err(AppError::NoActiveSource)));
    }
}

#[test]
fn play_track_without_player_is_mpris_error() {
    match route_target(CommandKind::PlayTrack, false, true) {
        Err(AppError::Mpris(m)) => assert_eq!(m, "Local player not available"),
        other => panic!("unexpected {:?}", other),
    }
}

#[test]
fn app_error_new_is_mpris() {
    match AppError::new("boom") {
        AppError::Mpris(m) => assert_eq!(m, "boom"),
        other => panic!("unexpected {:?}", other),
    }
}

#[test]
fn scan_publishes_chosen_source() {
    let states = vec![Stopped, Playing];
    let tracks = vec![None, Some(TrackInfo::new("T".to_string(), "A".to_string(), None, "vlc".to_string()))];
    match scan_outcome(Some(1), &states, &tracks) {
        (Playing, TrackUpdate::Replace(t)) => assert_eq!(t.title, "T"),
        _ => panic!("unexpected outcome"),
    }
    assert!(matches!(scan_outcome(Some(0), &states, &tracks), (Stopped, TrackUpdate::Keep)));
}

#[test]
fn scan_without_choice_clears() {
    assert!(matches!(scan_outcome(None, &vec![Paused], &vec![None]), (Stopped, TrackUpdate::Clear)));
}

#[test]
fn bus_source_state_change_adopted_then_reselected() {
    let r = source_reaction(SourceEvent::StateChanged(Playing), true, None, "vlc");
    assert_eq!(r, SourceReaction { cache_state: Some(Playing), cache_track: false, adopt: true, reselect: true });
    assert!(source_reaction(SourceEvent::StateChanged(Paused), true, Some("vlc"), "vlc").adopt);
    assert!(!source_reaction(SourceEvent::StateChanged(Paused), true, Some("spotify"), "vlc").adopt);
    assert!(!source_reaction(SourceEvent::StateChanged(Paused), false, None, "local-player").adopt);
}

#[test]
fn track_change_cached_other_events_ignored() {
    let t = source_reaction(SourceEvent::TrackChanged, true, None, "vlc");
    assert_eq!(t, SourceReaction { cache_state: None, cache_track: true, adopt: false, reselect: true });
    let o = source_reaction(SourceEvent::Other, true, None, "vlc");
    assert_eq!(o, SourceReaction { cache_state: None, cache_track: false, adopt: false, reselect: false });
}

#[test]
fn forwarder_reacts_before_passing_event_on() {
    assert_eq!(
        forward_steps(SourceEvent::StateChanged(Playing), true, None, "vlc"),
        vec![
            ForwardStep::CacheState(Playing),
            ForwardStep::Adopt,
            ForwardStep::Reselect,
            ForwardStep::Forward(SourceEvent::StateChanged(Playing)),
        ]
    );
    assert_eq!(
        forward_steps(SourceEvent::StateChanged(Paused), false, None, "local-player"),
        vec![
            ForwardStep::CacheState(Paused),
            ForwardStep::Reselect,
            ForwardStep::Forward(SourceEvent::StateChanged(Paused)),
        ]
    );
    assert_eq!(
        forward_steps(SourceEvent::TrackChanged, true, Some("x"), "vlc"),
        vec![ForwardStep::CacheTrack, ForwardStep::Reselect, ForwardStep::Forward(SourceEvent::TrackChanged)]
    );
    assert_eq!(forward_steps(SourceEvent::Other, true, None, "vlc"), vec![ForwardStep::Forward(SourceEvent::Other)]);
}

#[test]
fn scan_keeps_one_local_player() {
    let existing = strings(&["local-player", "vlc"]);
    let names = strings(&["org.mpris.MediaPlayer2.vlc", "org.mpris.MediaPlayer2.mpv"]);
    let plan = plan_sources(&existing, &names);
    let mut ids: Vec<String> =
        existing.iter().zip(plan.keep.iter()).filter(|(_, k)| **k).map(|(id, _)| id.clone()).collect();
    for &j in &plan.add {
        ids.push(names[j].trim_start_matches("org.mpris.MediaPlayer2.").to_string());
    }
    assert_eq!(ids, strings(&["local-player", "vlc", "mpv"]));
    assert_eq!(ids.iter().filter(|id| id.as_str() == "local-player").count(), 1);
}
