use std::collections::BTreeMap;

use cosmic_media_applet::music_db::MusicStatsDb;
use cosmic_media_applet::scan::{
    file_stem_of, is_hidden_name, is_music_file, parent_name_of, scanned_track, EntryKind, MusicScan,
    ScanStep,
};

/// A directory tree held in memory: each directory's entries.
struct Tree {
    dirs: BTreeMap<String, Vec<(String, EntryKind)>>,
}

impl Tree {
    fn new(root: &str) -> Self {
        let mut dirs = BTreeMap::new();
        dirs.insert(root.to_string(), Vec::new());
        Tree { dirs }
    }

    fn add_entry(&mut self, dir: &str, name: &str, kind: EntryKind) {
        let entries = self.dirs.entry(dir.to_string()).or_default();
        if !entries.iter().any(|(n, _)| n == name) {
            entries.push((name.to_string(), kind));
        }
        if kind == EntryKind::Directory {
            self.dirs.entry(format!("{}/{}", dir, name)).or_default();
        }
    }

    fn add_dir(&mut self, root: &str, rel: &str) {
        let mut dir = root.to_string();
        for part in rel.split('/') {
            self.add_entry(&dir, part, EntryKind::Directory);
            dir = format!("{}/{}", dir, part);
        }
    }

    fn add_file(&mut self, root: &str, rel: &str) {
        let parts: Vec<&str> = rel.split('/').collect();
        let mut dir = root.to_string();
        for part in &parts[..parts.len() - 1] {
            self.add_entry(&dir, part, EntryKind::Directory);
            dir = format!("{}/{}", dir, part);
        }
        self.add_entry(&dir, parts[parts.len() - 1], EntryKind::File);
    }
}

/// Walks `tree` from `root` as the folder scan does; a directory that cannot
/// be read is skipped.
fn scan_tree(tree: &Tree, root: &str) -> (usize, usize) {
    let mut db = MusicStatsDb::new();
    scan_into(tree, root, &mut db)
}

fn scan_into(tree: &Tree, root: &str, db: &mut MusicStatsDb) -> (usize, usize) {
    let mut walk = MusicScan::new(root);
    while let Some(dir) = walk.next_dir() {
        let entries = match tree.dirs.get(&dir) {
            Some(e) => e.clone(),
            None => continue,
        };
        for (name, kind) in entries {
            let path = format!("{}/{}", dir, name);
            if walk.visit(&name, path.clone(), kind) == ScanStep::Track {
                if !db.contains_path(&path) {
                    db.insert_track(scanned_track(&path, 0));
                }
                walk.record_track(true);
            }
        }
    }
    walk.counts()
}

fn scan_files(files: &[&str]) -> (usize, usize) {
    let root = "/music";
    let mut tree = Tree::new(root);
    for f in files {
        tree.add_file(root, f);
    }
    scan_tree(&tree, root)
}

#[test]
fn test_scan_empty_directory() {
    let root = "/music";
    let mut tree = Tree::new(root);
    tree.add_dir(root, "empty");
    let (tracks, albums) = scan_tree(&tree, root);
    assert_eq!(tracks, 0);
    assert_eq!(albums, 1);
}

#[test]
fn test_scan_music_files() {
    let (tracks, _albums) = scan_files(&[
        "song1.mp3",
        "song2.flac",
        "song3.ogg",
        "song4.wav",
        "song5.m4a",
        "song6.opus",
        "song7.wma",
    ]);
    assert_eq!(tracks, 7);
}

#[test]
fn test_scan_filters_non_music_files() {
    let (tracks, _albums) = scan_files(&["song1.mp3", "readme.txt", "image.jpg", "video.mp4"]);
    assert_eq!(tracks, 1);
}

#[test]
fn test_scan_skips_hidden_files() {
    let (tracks, _albums) = scan_files(&["song1.mp3", ".hidden_song.mp3"]);
    assert_eq!(tracks, 1);
}

#[test]
fn test_scan_skips_hidden_directories() {
    let (tracks, _albums) = scan_files(&["song1.mp3", ".hidden_dir/song2.mp3", "visible_dir/song3.mp3"]);
    assert_eq!(tracks, 2);
}

#[test]
fn test_scan_nested_directories() {
    let (tracks, albums) = scan_files(&[
        "song1.mp3",
        "album1/song2.flac",
        "album1/subalbum/song3.ogg",
        "album2/song4.wav",
    ]);
    assert_eq!(tracks, 4);
    assert_eq!(albums, 3);
}

#[test]
fn test_scan_case_insensitive_extensions() {
    let (tracks, _albums) = scan_files(&["SONG1.MP3", "Song2.FLAC", "song3.Ogg"]);
    assert_eq!(tracks, 3);
}

#[test]
fn test_scan_nonexistent_directory() {
    let tree = Tree::new("/music");
    let (tracks, albums) = scan_tree(&tree, "/nonexistent/path/that/does/not/exist");
    assert_eq!(tracks, 0);
    assert_eq!(albums, 0);
}

#[test]
fn scan_visits_directories_last_found_first() {
    let mut walk = MusicScan::new("/r");
    assert_eq!(walk.next_dir(), Some("/r".to_string()));
    assert_eq!(walk.visit("a", "/r/a".to_string(), EntryKind::Directory), ScanStep::Descend);
    assert_eq!(walk.visit("b", "/r/b".to_string(), EntryKind::Directory), ScanStep::Descend);
    assert_eq!(walk.visit(".c", "/r/.c".to_string(), EntryKind::Directory), ScanStep::Skip);
    assert_eq!(walk.visit("x.mp3", "/r/x.mp3".to_string(), EntryKind::Other), ScanStep::Skip);
    assert_eq!(walk.next_dir(), Some("/r/b".to_string()));
    assert_eq!(walk.next_dir(), Some("/r/a".to_string()));
    assert_eq!(walk.next_dir(), None);
    assert_eq!(walk.counts(), (0, 2));
}

#[test]
fn scan_counts_only_stored_tracks() {
    let mut walk = MusicScan::new("/r");
    walk.record_track(true);
    walk.record_track(false);
    walk.record_track(true);
    assert_eq!(walk.counts(), (2, 0));
}

#[test]
fn music_file_names() {
    for name in ["a.mp3", "b.FLAC", "c.Ogg", "d.wav", "e.m4a", "f.opus", "g.WMA"] {
        assert!(is_music_file(name), "{}", name);
    }
    for name in ["readme.txt", "mp3", ".mp3", "song.mp3.bak", "song.", "song"] {
        assert!(!is_music_file(name), "{}", name);
    }
}

#[test]
fn hidden_names() {
    assert!(is_hidden_name(".git"));
    assert!(is_hidden_name("."));
    assert!(!is_hidden_name("music"));
    assert!(!is_hidden_name(""));
}

#[test]
fn stem_and_parent_of_paths() {
    assert_eq!(file_stem_of("/m/Album/Song One.mp3"), Some("Song One".to_string()));
    assert_eq!(file_stem_of("/m/Album/archive.tar.gz"), Some("archive.tar".to_string()));
    assert_eq!(file_stem_of("/m/Album/.hidden"), Some(".hidden".to_string()));
    assert_eq!(file_stem_of("/"), None);
    assert_eq!(parent_name_of("/m/Album/Song.mp3"), Some("Album".to_string()));
    assert_eq!(parent_name_of("Song.mp3"), None);
    assert_eq!(parent_name_of("/Song.mp3"), None);
}

#[test]
fn scanned_track_takes_names_from_path() {
    let t = scanned_track("/home/u/Music/Best Of/01 Intro.flac", 61_000);
    assert_eq!(t.path, "/home/u/Music/Best Of/01 Intro.flac");
    assert_eq!(t.title, "01 Intro");
    assert_eq!(t.artist, "");
    assert_eq!(t.album, "Best Of");
    assert_eq!(t.duration_ms, 61_000);
    assert_eq!(t.play_count, 0);
    assert!(!t.is_favorite);
    assert_eq!(t.last_played, 0);
}

#[test]
fn rescan_counts_the_same_and_stores_nothing_new() {
    let root = "/music";
    let mut tree = Tree::new(root);
    for f in ["a.mp3", "x/b.flac", "x/y/c.ogg", ".h/d.mp3", "notes.txt"] {
        tree.add_file(root, f);
    }
    let mut db = MusicStatsDb::new();
    let first = scan_into(&tree, root, &mut db);
    let stored = db.len();
    let second = scan_into(&tree, root, &mut db);
    assert_eq!(first, (3, 2));
    assert_eq!(second, first);
    assert_eq!(db.len(), stored);
}
