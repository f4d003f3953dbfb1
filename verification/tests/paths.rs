use cosmic_media_applet::paths::{_db_path, data_home, join_path, music_folder};

#[test]
fn join_like_path_join() {
    assert_eq!(join_path("/home/u", "Music"), "/home/u/Music");
    assert_eq!(join_path("/home/u/", "Music"), "/home/u/Music");
    assert_eq!(join_path("/home/u", "/srv/music"), "/srv/music");
    assert_eq!(join_path("", "Music"), "Music");
}

#[test]
fn data_home_prefers_xdg_then_home_then_tmp() {
    assert_eq!(data_home(Some("/xdg"), Some("/home/u")), "/xdg");
    assert_eq!(data_home(Some(""), Some("/home/u")), "/home/u/.local/share");
    assert_eq!(data_home(None, Some("/home/u")), "/home/u/.local/share");
    assert_eq!(data_home(None, Some("")), "/tmp");
    assert_eq!(data_home(None, None), "/tmp");
}

#[test]
fn db_path_in_applet_directory() {
    assert_eq!(_db_path("/xdg"), "/xdg/cosmic-media-applet/music_stats.db");
    assert_eq!(_db_path("/tmp"), "/tmp/cosmic-media-applet/music_stats.db");
}

#[test]
fn music_folder_without_home() {
    assert_eq!(music_folder(None, None), "/tmp/Music");
    assert_eq!(music_folder(Some(""), Some("XDG_MUSIC_DIR=\"/srv\"")), "/tmp/Music");
}

#[test]
fn music_folder_without_user_dirs_entry() {
    assert_eq!(music_folder(Some("/home/u"), None), "/home/u/Music");
    assert_eq!(music_folder(Some("/home/u"), Some("XDG_VIDEOS_DIR=\"$HOME/Videos\"\n")), "/home/u/Music");
    assert_eq!(music_folder(Some("/home/u"), Some("")), "/home/u/Music");
}

#[test]
fn music_folder_from_home_relative_entry() {
    let dirs = "# comment\nXDG_DESKTOP_DIR=\"$HOME/Desktop\"\nXDG_MUSIC_DIR=\"$HOME/Musik\"\nXDG_MUSIC_DIR=\"$HOME/Other\"\n";
    assert_eq!(music_folder(Some("/home/u"), Some(dirs)), "/home/u/Musik");
}

#[test]
fn music_folder_home_only_means_music() {
    assert_eq!(music_folder(Some("/home/u"), Some("XDG_MUSIC_DIR=\"$HOME\"")), "/home/u/Music");
    assert_eq!(music_folder(Some("/home/u"), Some("XDG_MUSIC_DIR=\"$HOME/\"")), "/home/u/Music");
}

#[test]
fn music_folder_absolute_entry_and_trimming() {
    assert_eq!(music_folder(Some("/home/u"), Some("XDG_MUSIC_DIR=  \"/srv/music\"  \r\n")), "/srv/music");
    assert_eq!(music_folder(Some("/home/u"), Some("XDG_MUSIC_DIR=/data/songs")), "/data/songs");
}

#[test]
fn music_folder_entry_must_start_the_line() {
    assert_eq!(music_folder(Some("/home/u"), Some(" XDG_MUSIC_DIR=\"/srv\"\n")), "/home/u/Music");
}
