//! The music statistics store: per-track statistics (play count, favorite
//! flag), the global scan statistics and the last playback position, held as
//! plain values. The listings follow the store's query rules: sort orders,
//! `LIKE` search, album grouping.
use vstd::prelude::*;
use crate::order::{SortMode, ModeOrdered, sort_by_mode, sorted_by_mode, lemma_map_preserves_multiset};
use crate::pattern::{like_match, like_matches, is_ascii_text, ascii_lower};
use crate::albums::{album_listing, album_plays_overflow, album_records, is_album_listing};
use crate::paths::{_db_path, db_path_spec};
use crate::text::{text_le, text_le_exec, chars_of, copy_string, to_owned_string};

verus! {

broadcast use vstd::seq_lib::group_seq_properties;

/// Global statistics of the last scan of the music folder.
#[derive(Debug, Clone, Copy)]
pub struct MusicStats {
    pub track_count: usize,
    pub album_count: usize,
    pub last_scanned: u64,
}

/// Statistics of one local track.
#[derive(Debug)]
pub struct TrackStat {
    /// Absolute file path; the key of the store.
    pub path: String,
    pub title: String,
    pub artist: String,
    pub album: String,
    pub duration_ms: u64,
    pub play_count: u64,
    pub is_favorite: bool,
    /// Unix time of the last play, 0 if never played.
    pub last_played: u64,
}

/// The value of a [`TrackStat`].
pub struct TrackRecord {
    pub path: Seq<char>,
    pub title: Seq<char>,
    pub artist: Seq<char>,
    pub album: Seq<char>,
    pub duration_ms: u64,
    pub play_count: u64,
    pub is_favorite: bool,
    pub last_played: u64,
}

impl View for TrackStat {
    type V = TrackRecord;

    open spec fn view(&self) -> TrackRecord {
        TrackRecord {
            path: self.path@,
            title: self.title@,
            artist: self.artist@,
            album: self.album@,
            duration_ms: self.duration_ms,
            play_count: self.play_count,
            is_favorite: self.is_favorite,
            last_played: self.last_played,
        }
    }
}

impl Clone for TrackStat {
    fn clone(&self) -> (r: Self)
        ensures
            r@ == self@,
    {
        TrackStat {
            path: copy_string(&self.path),
            title: copy_string(&self.title),
            artist: copy_string(&self.artist),
            album: copy_string(&self.album),
            duration_ms: self.duration_ms,
            play_count: self.play_count,
            is_favorite: self.is_favorite,
            last_played: self.last_played,
        }
    }
}

/// A summary of the tracks of one album.
#[derive(Debug, Default)]
pub struct AlbumInfo {
    /// The album's name.
    pub album: String,
    /// The artist of the album's first track in storage order.
    pub artist: String,
    /// The album's directory name (the album's name).
    pub directory: String,
    /// The number of the album's tracks.
    pub track_count: usize,
}

/// The value of an [`AlbumInfo`].
pub struct AlbumRecord {
    pub album: Seq<char>,
    pub artist: Seq<char>,
    pub directory: Seq<char>,
    pub track_count: usize,
}

impl View for AlbumInfo {
    type V = AlbumRecord;

    open spec fn view(&self) -> AlbumRecord {
        AlbumRecord {
            album: self.album@,
            artist: self.artist@,
            directory: self.directory@,
            track_count: self.track_count,
        }
    }
}

impl Clone for AlbumInfo {
    fn clone(&self) -> (r: Self)
        ensures
            r@ == self@,
    {
        AlbumInfo {
            album: copy_string(&self.album),
            artist: copy_string(&self.artist),
            directory: copy_string(&self.directory),
            track_count: self.track_count,
        }
    }
}

/// The value of a track, as a function.
pub open spec fn to_record() -> spec_fn(TrackStat) -> TrackRecord {
    |t: TrackStat| t@
}

/// The values of a sequence of tracks.
pub open spec fn records(s: Seq<TrackStat>) -> Seq<TrackRecord> {
    s.map_values(to_record())
}

/// `a` comes no later than `b` in a track listing sorted by `mode`: names are
/// the titles, compared by their UTF-8 bytes.
pub open spec fn track_le(mode: SortMode, a: TrackRecord, b: TrackRecord) -> bool {
    match mode {
        SortMode::NameAsc => text_le(a.title, b.title),
        SortMode::NameDesc => text_le(b.title, a.title),
        SortMode::PlayCountAsc => a.play_count < b.play_count || (a.play_count == b.play_count
            && text_le(a.title, b.title)),
        SortMode::PlayCountDesc => a.play_count > b.play_count || (a.play_count == b.play_count
            && text_le(a.title, b.title)),
    }
}

/// A track listing sorted by `mode`.
pub open spec fn tracks_sorted(mode: SortMode, s: Seq<TrackRecord>) -> bool {
    forall|i: int, j: int| 0 <= i < j < s.len() ==> track_le(mode, #[trigger] s[i], #[trigger] s[j])
}

impl ModeOrdered for TrackStat {
    open spec fn mode_le(self, other: Self, mode: SortMode) -> bool {
        track_le(mode, self@, other@)
    }

    fn le_by_mode(&self, other: &Self, mode: SortMode) -> (r: bool) {
        match mode {
            SortMode::NameAsc => text_le_exec(&self.title, &other.title),
            SortMode::NameDesc => text_le_exec(&other.title, &self.title),
            SortMode::PlayCountAsc => self.play_count < other.play_count || (self.play_count
                == other.play_count && text_le_exec(&self.title, &other.title)),
            SortMode::PlayCountDesc => self.play_count > other.play_count || (self.play_count
                == other.play_count && text_le_exec(&self.title, &other.title)),
        }
    }

    proof fn lemma_mode_total(a: Self, b: Self, mode: SortMode) {
        crate::text::lemma_bytes_le_total(
            vstd::utf8::encode_utf8(a.title@),
            vstd::utf8::encode_utf8(b.title@),
        );
    }

    proof fn lemma_mode_trans(a: Self, b: Self, c: Self, mode: SortMode) {
        let ea = vstd::utf8::encode_utf8(a.title@);
        let eb = vstd::utf8::encode_utf8(b.title@);
        let ec = vstd::utf8::encode_utf8(c.title@);
        match mode {
            SortMode::NameDesc => {
                crate::text::lemma_bytes_le_trans(ec, eb, ea);
            },
            _ => {
                if crate::text::bytes_le(ea, eb) && crate::text::bytes_le(eb, ec) {
                    crate::text::lemma_bytes_le_trans(ea, eb, ec);
                }
            },
        }
    }
}

proof fn lemma_sorted_records(r: Seq<TrackStat>, mode: SortMode)
    requires
        sorted_by_mode(r, mode),
    ensures
        tracks_sorted(mode, records(r)),
{
    assert forall|i: int, j: int| 0 <= i < j < records(r).len() implies track_le(
        mode,
        #[trigger] records(r)[i],
        #[trigger] records(r)[j],
    ) by {
        assert(r[i].mode_le(r[j], mode));
    }
}

/// The rows of one album (whatever the artist).
pub open spec fn in_album_filter(album: Seq<char>) -> spec_fn(TrackRecord) -> bool {
    |r: TrackRecord| r.album == album
}

/// The rows whose path is not `path`.
pub open spec fn other_path_filter(path: Seq<char>) -> spec_fn(TrackRecord) -> bool {
    |r: TrackRecord| r.path != path
}

/// The favorite rows.
pub open spec fn favorite_filter() -> spec_fn(TrackRecord) -> bool {
    |r: TrackRecord| r.is_favorite
}

/// Every row.
pub open spec fn any_filter() -> spec_fn(TrackRecord) -> bool {
    |r: TrackRecord| true
}

/// Whether a row matches a `LIKE` pattern in its title, artist or album.
pub open spec fn matches_search(r: TrackRecord, pattern: Seq<char>) -> bool {
    like_match(r.title, pattern) || like_match(r.artist, pattern) || like_match(r.album, pattern)
}

/// The rows that match a `LIKE` pattern.
pub open spec fn search_filter(pattern: Seq<char>) -> spec_fn(TrackRecord) -> bool {
    |r: TrackRecord| matches_search(r, pattern)
}

/// The lower-case form of a text, as Rust's `str::to_lowercase` gives it.
pub uninterp spec fn lowercase_of(s: Seq<char>) -> Seq<char>;

/// `str::to_lowercase`: the text's Unicode lower-case form. Claimed: the
/// result depends on the text alone, and is named `lowercase_of`; on ASCII
/// text it lower-cases `A`-`Z` and changes nothing else (ASCII characters map
/// to their ASCII lower case under Unicode's rules). What the form is beyond
/// ASCII (Unicode's case mapping, with its rule for a final sigma) is left
/// unsaid.
#[verifier::external_body]
fn to_lowercase(s: &str) -> (r: String)
    ensures
        r@ == lowercase_of(s@),
        is_ascii_text(s@) ==> r@ == ascii_lower(s@),
{
    s.to_lowercase()
}

/// The lower-cased form of a search query, as the search uses it.
pub fn lowercased_query(query: &str) -> (r: String)
    ensures
        r@ == lowercase_of(query@),
        is_ascii_text(query@) ==> r@ == ascii_lower(query@),
{
    to_lowercase(query)
}

/// The `LIKE` pattern that finds `body` anywhere: `body` between two `%`.
pub open spec fn contains_pattern(body: Seq<char>) -> Seq<char> {
    seq!['%'] + body + seq!['%']
}

/// The pattern that a search for `query` uses: the lower-cased query
/// between two `%`.
pub open spec fn search_pattern(query: Seq<char>) -> Seq<char> {
    contains_pattern(lowercase_of(query))
}

/// Which rows a listing takes.
enum RowSelector {
    All,
    Pattern(Vec<char>),
    Album(String),
    Favorites,
}

impl RowSelector {
    spec fn pred(&self) -> spec_fn(TrackRecord) -> bool {
        match self {
            RowSelector::All => any_filter(),
            RowSelector::Pattern(p) => search_filter(p@),
            RowSelector::Album(a) => in_album_filter(a@),
            RowSelector::Favorites => favorite_filter(),
        }
    }

    fn keeps(&self, t: &TrackStat) -> (r: bool)
        ensures
            r == (self.pred())(t@),
    {
        match self {
            RowSelector::All => true,
            RowSelector::Pattern(p) => {
                like_matches(&chars_of(t.title.as_str()), p) || like_matches(
                    &chars_of(t.artist.as_str()),
                    p,
                ) || like_matches(&chars_of(t.album.as_str()), p)
            },
            RowSelector::Album(a) => t.album == *a,
            RowSelector::Favorites => t.is_favorite,
        }
    }
}

/// The value of a [`MusicStatsDb`].
pub struct MusicStatsView {
    /// The tracks, in storage order.
    pub rows: Seq<TrackRecord>,
    pub track_count: usize,
    pub album_count: usize,
    pub last_scanned: u64,
    pub last_path: Option<Seq<char>>,
    pub last_position_ms: u64,
    pub last_state: Seq<char>,
}

/// No two rows share a path.
pub open spec fn paths_unique(rows: Seq<TrackRecord>) -> bool {
    forall|i: int, j: int| 0 <= i < j < rows.len() ==> (#[trigger] rows[i]).path != (#[trigger] rows[j]).path
}

/// Some row has the path `path`.
pub open spec fn has_path(rows: Seq<TrackRecord>, path: Seq<char>) -> bool {
    exists|i: int| 0 <= i < rows.len() && (#[trigger] rows[i]).path == path
}

/// The row with `path` with its favorite flag flipped; other rows as they are.
pub open spec fn toggle_row(r: TrackRecord, path: Seq<char>) -> TrackRecord {
    if r.path == path {
        TrackRecord { is_favorite: !r.is_favorite, ..r }
    } else {
        r
    }
}

/// The largest count SQLite can hold as an integer.
pub open spec fn max_play_count() -> u64 {
    0x7fff_ffff_ffff_ffff
}

/// The row with `path` with one more play, last played at `now`; other rows,
/// and a row whose count is already at the largest, as they are.
pub open spec fn count_row(r: TrackRecord, path: Seq<char>, now: u64) -> TrackRecord {
    if r.path == path && r.play_count < max_play_count() {
        TrackRecord { play_count: (r.play_count + 1) as u64, last_played: now, ..r }
    } else {
        r
    }
}

/// The rows after flipping the favorite flag of `path`.
pub open spec fn toggled(rows: Seq<TrackRecord>, path: Seq<char>) -> Seq<TrackRecord> {
    rows.map_values(|r: TrackRecord| toggle_row(r, path))
}

/// The rows after counting a play of `path` at `now`.
pub open spec fn counted(rows: Seq<TrackRecord>, path: Seq<char>, now: u64) -> Seq<TrackRecord> {
    rows.map_values(|r: TrackRecord| count_row(r, path, now))
}

/// The rows after storing `t`: it replaces the row with its path, or comes last.
pub open spec fn stored(rows: Seq<TrackRecord>, t: TrackRecord) -> Seq<TrackRecord> {
    if has_path(rows, t.path) {
        rows.map_values(|r: TrackRecord| if r.path == t.path { t } else { r })
    } else {
        rows.push(t)
    }
}

/// The rows of a store opened on `s`: each row of `s` stored in turn.
pub open spec fn load_rows(s: Seq<TrackRecord>) -> Seq<TrackRecord>
    decreases s.len(),
{
    if s.len() == 0 {
        Seq::empty()
    } else {
        stored(load_rows(s.drop_last()), s.last())
    }
}

/// Taking some rows keeps paths unique, and takes only rows that were there.
pub proof fn lemma_filter_keeps_unique(s: Seq<TrackRecord>, p: spec_fn(TrackRecord) -> bool)
    requires
        paths_unique(s),
    ensures
        paths_unique(s.filter(p)),
        forall|r: TrackRecord| s.filter(p).contains(r) ==> s.contains(r),
    decreases s.len(),
{
    reveal(Seq::filter);
    if s.len() > 0 {
        let s0 = s.drop_last();
        assert(paths_unique(s0)) by {
            assert forall|i: int, j: int| 0 <= i < j < s0.len() implies (#[trigger] s0[i]).path != (
            #[trigger] s0[j]).path by {
                assert(s0[i] == s[i] && s0[j] == s[j]);
            }
        }
        lemma_filter_keeps_unique(s0, p);
        let f0 = s0.filter(p);
        if p(s.last()) {
            let f = f0.push(s.last());
            assert(s.filter(p) == f);
            assert forall|i: int, j: int| 0 <= i < j < f.len() implies (#[trigger] f[i]).path != (
            #[trigger] f[j]).path by {
                if j == f.len() - 1 {
                    assert(f0.contains(f[i]));
                    assert(s0.contains(f[i]));
                    let k = choose|k: int| 0 <= k < s0.len() && s0[k] == f[i];
                    assert(s[k] == f[i]);
                    assert(s[s.len() - 1] == f[j]);
                } else {
                    assert(f[i] == f0[i] && f[j] == f0[j]);
                }
            }
            assert forall|r: TrackRecord| s.filter(p).contains(r) implies s.contains(r) by {
                if r != s.last() {
                    let k = choose|k: int| 0 <= k < f.len() && f[k] == r;
                    assert(f0[k] == r);
                    assert(f0.contains(r));
                    assert(s0.contains(r));
                    let m = choose|m: int| 0 <= m < s0.len() && s0[m] == r;
                    assert(s[m] == r);
                } else {
                    assert(s[s.len() - 1] == r);
                }
            }
        } else {
            assert(s.filter(p) == f0);
            assert forall|r: TrackRecord| s.filter(p).contains(r) implies s.contains(r) by {
                assert(f0.contains(r));
                assert(s0.contains(r));
                let m = choose|m: int| 0 <= m < s0.len() && s0[m] == r;
                assert(s[m] == r);
            }
        }
    }
}

proof fn lemma_filter_all(s: Seq<TrackRecord>)
    ensures
        s.filter(any_filter()) == s,
    decreases s.len(),
{
    reveal(Seq::filter);
    if s.len() > 0 {
        lemma_filter_all(s.drop_last());
        assert(s.drop_last().push(s.last()) =~= s);
    }
}

enum RowUpdate {
    ToggleFavorite,
    CountPlay(u64),
}

impl RowUpdate {
    spec fn apply(&self, r: TrackRecord, path: Seq<char>) -> TrackRecord {
        match self {
            RowUpdate::ToggleFavorite => toggle_row(r, path),
            RowUpdate::CountPlay(now) => count_row(r, path, *now),
        }
    }
}

/// The contents of the music statistics store.
pub struct MusicStatsDb {
    tracks: Vec<TrackStat>,
    stats: MusicStats,
    last_path: Option<String>,
    last_position_ms: u64,
    last_state: String,
}

impl View for MusicStatsDb {
    type V = MusicStatsView;

    closed spec fn view(&self) -> MusicStatsView {
        MusicStatsView {
            rows: records(self.tracks@),
            track_count: self.stats.track_count,
            album_count: self.stats.album_count,
            last_scanned: self.stats.last_scanned,
            last_path: match self.last_path {
                Some(p) => Some(p@),
                None => None,
            },
            last_position_ms: self.last_position_ms,
            last_state: self.last_state@,
        }
    }
}

impl MusicStatsDb {
    /// The store's invariant: the path is the key of the tracks.
    pub open spec fn wf(&self) -> bool {
        paths_unique(self@.rows)
    }

    #[verifier::type_invariant]
    spec fn inv(self) -> bool {
        paths_unique(records(self.tracks@))
    }

    /// An empty store: no tracks, statistics at zero, playback stopped.
    pub fn new() -> (db: Self)
        ensures
            db.wf(),
            db@.rows.len() == 0,
            db@.track_count == 0,
            db@.album_count == 0,
            db@.last_scanned == 0,
            db@.last_path is None,
            db@.last_position_ms == 0,
            db@.last_state == "stopped"@,
    {
        let db = MusicStatsDb {
            tracks: Vec::new(),
            stats: MusicStats { track_count: 0, album_count: 0, last_scanned: 0 },
            last_path: None,
            last_position_ms: 0,
            last_state: to_owned_string("stopped"),
        };
        proof {
            assert(records(db.tracks@) =~= Seq::<TrackRecord>::empty());
        }
        db
    }

    /// A store opened on the rows `tracks` read back from its file, in the
    /// order read: each is stored in turn (a later row with a path already
    /// stored replaces it); statistics at zero and playback stopped until
    /// they are read back too.
    pub fn open(tracks: Vec<TrackStat>) -> (db: Self)
        ensures
            db.wf(),
            db@.rows == load_rows(records(tracks@)),
            db@.track_count == 0,
            db@.album_count == 0,
            db@.last_scanned == 0,
            db@.last_path is None,
            db@.last_position_ms == 0,
            db@.last_state == "stopped"@,
    {
        let ghost input = records(tracks@);
        let mut db = MusicStatsDb::new();
        proof {
            assert(load_rows(input.take(0)) =~= Seq::<TrackRecord>::empty()) by {
                assert(input.take(0) =~= Seq::<TrackRecord>::empty());
            }
        }
        let n = tracks.len();
        let mut i: usize = 0;
        while i < n
            invariant
                n == input.len() == tracks.len(),
                i <= n,
                input == records(tracks@),
                db.wf(),
                db@.rows == load_rows(input.take(i as int)),
                db@.track_count == 0,
                db@.album_count == 0,
                db@.last_scanned == 0,
                db@.last_path is None,
                db@.last_position_ms == 0,
                db@.last_state == "stopped"@,
            decreases n - i,
        {
            let t = tracks[i].clone();
            proof {
                assert(t@ == input[i as int]);
                assert(input.take(i + 1).drop_last() =~= input.take(i as int));
                assert(input.take(i + 1).last() == input[i as int]);
            }
            db.insert_track(t);
            i += 1;
        }
        proof {
            assert(input.take(n as int) =~= input);
        }
        db
    }

    /// Number of tracks in the store.
    pub fn len(&self) -> (n: usize)
        ensures
            n == self@.rows.len(),
    {
        self.tracks.len()
    }

    /// The store's file under the data directory `data_home`.
    pub fn db_path(data_home: &str) -> (r: String)
        ensures
            r@ == db_path_spec(data_home@),
    {
        _db_path(data_home)
    }

    /// The global scan statistics: (track count, album count, last scan time).
    pub fn get_stats(&self) -> (r: (usize, usize, u64))
        ensures
            r == (self@.track_count, self@.album_count, self@.last_scanned),
    {
        (self.stats.track_count, self.stats.album_count, self.stats.last_scanned)
    }

    /// Records the global scan statistics; nothing else changes.
    pub fn set_stats(&mut self, track_count: usize, album_count: usize, timestamp: u64)
        ensures
            final(self).wf(),
            final(self)@ == (MusicStatsView {
                track_count,
                album_count,
                last_scanned: timestamp,
                ..old(self)@
            }),
    {
        proof {
            use_type_invariant(&*self);
        }
        self.stats = MusicStats { track_count, album_count, last_scanned: timestamp };
    }

    /// The position of the row with `path`, if any.
    fn find(&self, path: &String) -> (r: Option<usize>)
        ensures
            r is Some <==> has_path(self@.rows, path@),
            r matches Some(k) ==> k < self@.rows.len() && self@.rows[k as int].path == path@,
    {
        let mut i: usize = 0;
        while i < self.tracks.len()
            invariant
                i <= self.tracks.len(),
                forall|k: int| 0 <= k < i ==> (#[trigger] self@.rows[k]).path != path@,
            decreases self.tracks.len() - i,
        {
            proof {
                assert(self@.rows[i as int] == self.tracks@[i as int]@);
            }
            if self.tracks[i].path == *path {
                return Some(i);
            }
            i += 1;
        }
        None
    }

    /// Whether some track has the path `path`.
    pub fn contains_path(&self, path: &str) -> (r: bool)
        ensures
            r == has_path(self@.rows, path@),
    {
        proof {
            use_type_invariant(self);
        }
        let key = to_owned_string(path);
        self.find(&key).is_some()
    }

    /// The track with path `path`, if the store has one.
    pub fn get_track_by_path(&self, path: &str) -> (r: Option<TrackStat>)
        ensures
            r is Some <==> has_path(self@.rows, path@),
            r matches Some(t) ==> t@.path == path@ && self@.rows.contains(t@),
    {
        proof {
            use_type_invariant(self);
        }
        let key = to_owned_string(path);
        match self.find(&key) {
            Some(k) => {
                let t = self.tracks[k].clone();
                proof {
                    assert(self@.rows[k as int] == t@);
                }
                Some(t)
            },
            None => None,
        }
    }

    /// Stores a track: it replaces the track with the same path, or is added
    /// last.
    pub fn insert_track(&mut self, t: TrackStat)
        ensures
            final(self).wf(),
            final(self)@ == (MusicStatsView { rows: stored(old(self)@.rows, t@), ..old(self)@ }),
    {
        proof {
            use_type_invariant(&*self);
        }
        let ghost old_rows = self@.rows;
        let ghost tv = t@;
        let pos = self.find(&t.path);
        let mut tracks: Vec<TrackStat> = Vec::new();
        core::mem::swap(&mut tracks, &mut self.tracks);
        assert(records(tracks@) == old_rows);
        match pos {
            Some(k) => {
                tracks.set(k, t);
                proof {
                    assert(records(tracks@) =~= stored(old_rows, tv)) by {
                        assert forall|i: int| 0 <= i < old_rows.len() implies records(tracks@)[i] == stored(old_rows, tv)[i] by {
                            if i != k && old_rows[i].path == tv.path {
                                if i < k {
                                    assert(old_rows[i].path != old_rows[k as int].path);
                                } else {
                                    assert(old_rows[k as int].path != old_rows[i].path);
                                }
                            }
                        }
                    }
                }
            },
            None => {
                tracks.push(t);
                proof {
                    assert(records(tracks@) =~= old_rows.push(tv));
                }
            },
        }
        proof {
            crate::store_laws::law_store_then_lookup(old_rows, tv);
        }
        self.tracks = tracks;
    }

    /// Applies `op` to the rows with `path`.
    fn update_where(&mut self, path: &String, op: RowUpdate)
        ensures
            final(self)@ == (MusicStatsView {
                rows: old(self)@.rows.map_values(|r: TrackRecord| op.apply(r, path@)),
                ..old(self)@
            }),
    {
        proof {
            use_type_invariant(&*self);
        }
        let ghost old_rows = self@.rows;
        let mut tracks: Vec<TrackStat> = Vec::new();
        core::mem::swap(&mut tracks, &mut self.tracks);
        assert(records(tracks@) == old_rows);
        let n = tracks.len();
        let mut i: usize = 0;
        while i < n
            invariant
                n == tracks.len() == old_rows.len(),
                i <= n,
                forall|k: int| 0 <= k < i ==> records(tracks@)[k] == op.apply(old_rows[k], path@),
                forall|k: int| i <= k < n ==> records(tracks@)[k] == old_rows[k],
            decreases n - i,
        {
            let ghost rows_before = records(tracks@);
            if tracks[i].path == *path {
                let mut t = tracks[i].clone();
                match op {
                    RowUpdate::ToggleFavorite => {
                        t.is_favorite = !t.is_favorite;
                    },
                    RowUpdate::CountPlay(now) => {
                        if t.play_count < 0x7fff_ffff_ffff_ffff {
                            t.play_count = t.play_count + 1;
                            t.last_played = now;
                        }
                    },
                }
                tracks.set(i, t);
                proof {
                    assert(records(tracks@)[i as int] == t@);
                    assert(op.apply(old_rows[i as int], path@) == t@);
                }
            }
            proof {
                assert(records(tracks@)[i as int] == op.apply(old_rows[i as int], path@));
                assert forall|k: int| 0 <= k < n && k != i implies records(tracks@)[k] == rows_before[k] by {}
                assert forall|k: int| 0 <= k < i + 1 implies records(tracks@)[k] == op.apply(old_rows[k], path@) by {
                    if k < i {
                        assert(rows_before[k] == op.apply(old_rows[k], path@));
                    }
                }
            }
            i += 1;
        }
        proof {
            assert(records(tracks@) =~= old_rows.map_values(|r: TrackRecord| op.apply(r, path@)));
            let new_rows = records(tracks@);
            assert forall|a: int, b: int| 0 <= a < b < new_rows.len() implies (#[trigger] new_rows[a]).path != (
            #[trigger] new_rows[b]).path by {
                assert(new_rows[a].path == old_rows[a].path);
                assert(new_rows[b].path == old_rows[b].path);
            }
        }
        self.tracks = tracks;
    }

    /// Flips the favorite flag of the track with `path` (nothing if none has
    /// it).
    pub fn toggle_favorite(&mut self, path: &str)
        ensures
            final(self).wf(),
            final(self)@ == (MusicStatsView { rows: toggled(old(self)@.rows, path@), ..old(self)@ }),
    {
        proof {
            use_type_invariant(&*self);
        }
        let key = to_owned_string(path);
        self.update_where(&key, RowUpdate::ToggleFavorite);
        proof {
            assert(self@.rows =~= toggled(old(self)@.rows, path@));
        }
    }

    /// Counts one play of the track with `path`, played at `now`. Returns
    /// false when that track's count is already the largest the store holds
    /// (it is then left as is).
    pub fn increment_play_count(&mut self, path: &str, now: u64) -> (r: bool)
        ensures
            final(self).wf(),
            final(self)@ == (MusicStatsView { rows: counted(old(self)@.rows, path@, now), ..old(self)@ }),
            r == !(exists|i: int|
                0 <= i < old(self)@.rows.len() && (#[trigger] old(self)@.rows[i]).path == path@
                    && old(self)@.rows[i].play_count >= max_play_count()),
    {
        proof {
            use_type_invariant(&*self);
        }
        let key = to_owned_string(path);
        let full = match self.find(&key) {
            Some(k) => self.tracks[k].play_count >= 0x7fff_ffff_ffff_ffff,
            None => false,
        };
        proof {
            if full {
                let k = choose|k: int| 0 <= k < self@.rows.len() && self@.rows[k].path == path@;
            }
        }
        self.update_where(&key, RowUpdate::CountPlay(now));
        proof {
            assert(self@.rows =~= counted(old(self)@.rows, path@, now));
        }
        !full
    }

    /// Removes the track with `path` (nothing if none has it).
    pub fn delete_track(&mut self, path: &str)
        ensures
            final(self).wf(),
            final(self)@ == (MusicStatsView {
                rows: old(self)@.rows.filter(other_path_filter(path@)),
                ..old(self)@
            }),
    {
        proof {
            use_type_invariant(&*self);
        }
        let ghost old_rows = self@.rows;
        let key = to_owned_string(path);
        let mut kept: Vec<TrackStat> = Vec::new();
        let mut i: usize = 0;
        while i < self.tracks.len()
            invariant
                i <= self.tracks.len(),
                old_rows == records(self.tracks@),
                key@ == path@,
                records(kept@) == old_rows.take(i as int).filter(other_path_filter(path@)),
            decreases self.tracks.len() - i,
        {
            proof {
                old_rows.lemma_take_succ_push(i as int);
                old_rows.take(i as int).lemma_filter_push(old_rows[i as int], other_path_filter(path@));
            }
            if !(self.tracks[i].path == key) {
                let t = self.tracks[i].clone();
                let ghost before = kept@;
                kept.push(t);
                proof {
                    assert(records(kept@) =~= records(before).push(t@));
                    assert(other_path_filter(path@)(old_rows[i as int]));
                    assert(t@ == old_rows[i as int]);
                }
            } else {
                assert(!other_path_filter(path@)(old_rows[i as int]));
            }
            i += 1;
        }
        proof {
            assert(old_rows.take(old_rows.len() as int) =~= old_rows);
        }
        proof {
            lemma_filter_keeps_unique(old_rows, other_path_filter(path@));
        }
        self.tracks = kept;
    }

    /// The rows that `sel` takes, in storage order.
    fn select_rows(&self, sel: &RowSelector) -> (r: Vec<TrackStat>)
        ensures
            records(r@) == self@.rows.filter(sel.pred()),
    {
        let ghost rows = self@.rows;
        let mut out: Vec<TrackStat> = Vec::new();
        let mut i: usize = 0;
        while i < self.tracks.len()
            invariant
                i <= self.tracks.len(),
                rows == records(self.tracks@),
                records(out@) == rows.take(i as int).filter(sel.pred()),
            decreases self.tracks.len() - i,
        {
            proof {
                rows.lemma_take_succ_push(i as int);
                rows.take(i as int).lemma_filter_push(rows[i as int], sel.pred());
            }
            if sel.keeps(&self.tracks[i]) {
                let t = self.tracks[i].clone();
                let ghost before = out@;
                out.push(t);
                proof {
                    assert(records(out@) =~= records(before).push(t@));
                }
            }
            i += 1;
        }
        proof {
            assert(rows.take(rows.len() as int) =~= rows);
        }
        out
    }

    /// The rows that `sel` takes, sorted by `mode`.
    fn listing(&self, sel: &RowSelector, mode: SortMode) -> (r: Vec<TrackStat>)
        ensures
            records(r@).to_multiset() == self@.rows.filter(sel.pred()).to_multiset(),
            tracks_sorted(mode, records(r@)),
    {
        let v = self.select_rows(sel);
        let ghost vs = v@;
        let r = sort_by_mode(v, mode);
        proof {
            lemma_map_preserves_multiset(r@, vs, to_record());
            lemma_sorted_records(r@, mode);
        }
        r
    }

    /// Every track, sorted by `sort_mode`.
    pub fn get_tracks_sorted(&self, sort_mode: SortMode) -> (r: Vec<TrackStat>)
        ensures
            records(r@).to_multiset() == self@.rows.to_multiset(),
            tracks_sorted(sort_mode, records(r@)),
    {
        let r = self.listing(&RowSelector::All, sort_mode);
        proof {
            lemma_filter_all(self@.rows);
        }
        r
    }

    /// Every track, most played first (ties by title).
    pub fn get_tracks_sorted_by_play_count(&self) -> (r: Vec<TrackStat>)
        ensures
            records(r@).to_multiset() == self@.rows.to_multiset(),
            tracks_sorted(SortMode::PlayCountDesc, records(r@)),
    {
        self.get_tracks_sorted(SortMode::PlayCountDesc)
    }

    /// The tracks whose title, artist or album matches the lower-cased
    /// `query` anywhere (as SQL `LIKE '%query%'`), most played first.
    pub fn search_tracks(&self, query: &str) -> (r: Vec<TrackStat>)
        ensures
            records(r@).to_multiset() == self@.rows.filter(search_filter(search_pattern(query@))).to_multiset(),
            tracks_sorted(SortMode::PlayCountDesc, records(r@)),
            is_ascii_text(query@) ==> search_pattern(query@) == contains_pattern(ascii_lower(query@)),
    {
        let lowered = lowercased_query(query);
        self.search_lowercased(lowered.as_str())
    }

    /// The tracks whose title, artist or album matches `lowered` (a query
    /// already lower-cased) anywhere (as SQL `LIKE '%lowered%'`), most played
    /// first.
    pub fn search_lowercased(&self, lowered: &str) -> (r: Vec<TrackStat>)
        ensures
            records(r@).to_multiset() == self@.rows.filter(search_filter(contains_pattern(lowered@))).to_multiset(),
            tracks_sorted(SortMode::PlayCountDesc, records(r@)),
    {
        let mut pattern: Vec<char> = Vec::new();
        pattern.push('%');
        let mut body = chars_of(lowered);
        pattern.append(&mut body);
        pattern.push('%');
        proof {
            assert(pattern@ =~= contains_pattern(lowered@));
        }
        self.listing(&RowSelector::Pattern(pattern), SortMode::PlayCountDesc)
    }

    /// The tracks of album `album`, by title.
    pub fn get_tracks_in_album(&self, album: &str) -> (r: Vec<TrackStat>)
        ensures
            records(r@).to_multiset() == self@.rows.filter(in_album_filter(album@)).to_multiset(),
            tracks_sorted(SortMode::NameAsc, records(r@)),
    {
        self.listing(&RowSelector::Album(to_owned_string(album)), SortMode::NameAsc)
    }

    /// The favorite tracks, most played first (ties by title).
    pub fn get_favorite_tracks(&self) -> (r: Vec<TrackStat>)
        ensures
            records(r@).to_multiset() == self@.rows.filter(favorite_filter()).to_multiset(),
            tracks_sorted(SortMode::PlayCountDesc, records(r@)),
    {
        self.listing(&RowSelector::Favorites, SortMode::PlayCountDesc)
    }

    /// Records the last playback position; nothing else changes.
    pub fn save_playback_state(&mut self, path: Option<&str>, position_ms: u64, state: &str)
        ensures
            final(self).wf(),
            final(self)@ == (MusicStatsView {
                last_path: match path {
                    Some(p) => Some(p@),
                    None => None,
                },
                last_position_ms: position_ms,
                last_state: state@,
                ..old(self)@
            }),
    {
        proof {
            use_type_invariant(&*self);
        }
        self.last_path = match path {
            Some(p) => Some(to_owned_string(p)),
            None => None,
        };
        self.last_position_ms = position_ms;
        self.last_state = to_owned_string(state);
    }

    /// The last playback position: (path, position in milliseconds, state).
    pub fn get_playback_state(&self) -> (r: Option<(Option<String>, u64, String)>)
        ensures
            r matches Some(v) && (match v.0 {
                Some(p) => self@.last_path == Some(p@),
                None => self@.last_path is None,
            }) && v.1 == self@.last_position_ms && v.2@ == self@.last_state,
    {
        let path = match &self.last_path {
            Some(p) => Some(copy_string(p)),
            None => None,
        };
        Some((path, self.last_position_ms, copy_string(&self.last_state)))
    }

    /// The albums: one entry per distinct album (directory) with its number
    /// of tracks and the artist of its first track, sorted by `sort_mode` (play counts are the album's total
    /// plays). `None` when some album's total plays exceed what the store's
    /// integer sum holds.
    pub fn get_albums_sorted(&self, sort_mode: SortMode) -> (r: Option<Vec<AlbumInfo>>)
        ensures
            r is None <==> album_plays_overflow(self@.rows),
            r matches Some(v) ==> is_album_listing(self@.rows, sort_mode, album_records(v@)),
    {
        album_listing(&self.tracks, sort_mode)
    }

    /// The albums sorted by name.
    pub fn get_albums(&self) -> (r: Option<Vec<AlbumInfo>>)
        ensures
            r is None <==> album_plays_overflow(self@.rows),
            r matches Some(v) ==> is_album_listing(self@.rows, SortMode::NameAsc, album_records(v@)),
    {
        self.get_albums_sorted(SortMode::NameAsc)
    }
}

} // verus!
