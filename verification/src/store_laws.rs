//! Laws of the music statistics store: what an operation undoes, keeps or
//! leaves alone, stated over the rows and views that the operations'
//! contracts use.
use vstd::prelude::*;
use crate::music_db::{
    TrackRecord, MusicStatsView, load_rows, paths_unique, track_le, tracks_sorted, has_path, toggled, counted, stored,
    other_path_filter, max_play_count, matches_search, search_pattern, lowercase_of, contains_pattern,
};
use crate::order::SortMode;
use crate::scan::{EntryKind, ScanStep, scan_step, scanned_record};
use crate::pattern::{no_wildcards, contains_folded, law_like_contains, ascii_lower, lemma_ascii_lower_search};

verus! {

broadcast use vstd::seq_lib::group_seq_properties;

/// Keeping the rows that all pass the test keeps them all.
proof fn lemma_filter_keeps_all(s: Seq<TrackRecord>, p: spec_fn(TrackRecord) -> bool)
    requires
        forall|i: int| 0 <= i < s.len() ==> p(#[trigger] s[i]),
    ensures
        s.filter(p) == s,
    decreases s.len(),
{
    reveal(Seq::filter);
    if s.len() > 0 {
        lemma_filter_keeps_all(s.drop_last(), p);
        assert(s.drop_last().push(s.last()) =~= s);
    }
}

/// Flipping the favorite flag of a path twice gives the rows back.
pub proof fn law_toggle_favorite_twice(rows: Seq<TrackRecord>, path: Seq<char>)
    ensures
        toggled(toggled(rows, path), path) == rows,
{
    assert(toggled(toggled(rows, path), path) =~= rows);
}

/// Flipping the favorite flag of `path` flips that flag of the row with that
/// path and changes nothing else; for a path the store lacks it changes
/// nothing at all.
pub proof fn law_toggle_favorite_scope(rows: Seq<TrackRecord>, path: Seq<char>)
    ensures
        toggled(rows, path).len() == rows.len(),
        forall|i: int|
            0 <= i < rows.len() && rows[i].path != path ==> #[trigger] toggled(rows, path)[i]
                == rows[i],
        forall|i: int|
            0 <= i < rows.len() && rows[i].path == path ==> (#[trigger] toggled(rows, path)[i])
                == (TrackRecord { is_favorite: !rows[i].is_favorite, ..rows[i] }),
        !has_path(rows, path) ==> toggled(rows, path) == rows,
{
    if !has_path(rows, path) {
        assert(toggled(rows, path) =~= rows);
    }
}

/// Counting a play never lowers a count; counting a play of a stored track
/// whose count is below the largest adds one play and records the time;
/// counting a play of a path the store lacks changes nothing.
pub proof fn law_count_play(rows: Seq<TrackRecord>, path: Seq<char>, now: u64)
    ensures
        counted(rows, path, now).len() == rows.len(),
        forall|i: int|
            0 <= i < rows.len() ==> (#[trigger] counted(rows, path, now)[i]).play_count
                >= rows[i].play_count,
        forall|i: int|
            0 <= i < rows.len() && rows[i].path == path && rows[i].play_count < max_play_count()
                ==> (#[trigger] counted(rows, path, now)[i]) == (TrackRecord {
                play_count: (rows[i].play_count + 1) as u64,
                last_played: now,
                ..rows[i]
            }),
        forall|i: int|
            0 <= i < rows.len() && rows[i].path != path ==> #[trigger] counted(rows, path, now)[i]
                == rows[i],
        !has_path(rows, path) ==> counted(rows, path, now) == rows,
{
    if !has_path(rows, path) {
        assert(counted(rows, path, now) =~= rows);
    }
}

/// After deleting `path` no row has it, every other row stays, and deleting
/// a path the store lacks changes nothing.
pub proof fn law_delete(rows: Seq<TrackRecord>, path: Seq<char>)
    ensures
        !has_path(rows.filter(other_path_filter(path)), path),
        forall|i: int|
            0 <= i < rows.len() && rows[i].path != path ==> rows.filter(other_path_filter(path)).contains(
                #[trigger] rows[i],
            ),
        !has_path(rows, path) ==> rows.filter(other_path_filter(path)) == rows,
{
    let f = rows.filter(other_path_filter(path));
    assert forall|i: int| 0 <= i < f.len() implies (#[trigger] f[i]).path != path by {
        rows.lemma_filter_pred(other_path_filter(path), i);
    }
    assert forall|i: int| 0 <= i < rows.len() && rows[i].path != path implies f.contains(
        #[trigger] rows[i],
    ) by {
        rows.lemma_filter_contains(other_path_filter(path), i);
    }
    if !has_path(rows, path) {
        assert forall|i: int| 0 <= i < rows.len() implies (other_path_filter(path))(#[trigger] rows[i]) by {
            if rows[i].path == path {
                assert(has_path(rows, path));
            }
        }
        lemma_filter_keeps_all(rows, other_path_filter(path));
    }
}

/// Storing a track keeps the path a key; looking its path up afterwards finds
/// exactly that track; every row with another path stays.
pub proof fn law_store_then_lookup(rows: Seq<TrackRecord>, t: TrackRecord)
    requires
        paths_unique(rows),
    ensures
        paths_unique(stored(rows, t)),
        has_path(stored(rows, t), t.path),
        forall|r: TrackRecord| stored(rows, t).contains(r) && r.path == t.path ==> r == t,
        forall|i: int|
            0 <= i < rows.len() && rows[i].path != t.path ==> stored(rows, t).contains(
                #[trigger] rows[i],
            ),
{
    let s = stored(rows, t);
    if has_path(rows, t.path) {
        let k = choose|k: int| 0 <= k < rows.len() && (#[trigger] rows[k]).path == t.path;
        assert(s[k] == t);
        assert forall|i: int, j: int| 0 <= i < j < s.len() implies (#[trigger] s[i]).path != (
        #[trigger] s[j]).path by {
            assert(rows[i].path != rows[j].path);
        }
        assert forall|r: TrackRecord| s.contains(r) && r.path == t.path implies r == t by {
            let m = choose|m: int| 0 <= m < s.len() && s[m] == r;
        }
        assert forall|i: int| 0 <= i < rows.len() && rows[i].path != t.path implies s.contains(
            #[trigger] rows[i],
        ) by {
            assert(s[i] == rows[i]);
        }
    } else {
        assert(s[rows.len() as int] == t);
        assert forall|i: int, j: int| 0 <= i < j < s.len() implies (#[trigger] s[i]).path != (
        #[trigger] s[j]).path by {
            if j == rows.len() {
                assert(s[i] == rows[i]);
                if rows[i].path == t.path {
                    assert(has_path(rows, t.path));
                }
            } else {
                assert(s[i] == rows[i] && s[j] == rows[j]);
            }
        }
        assert forall|r: TrackRecord| s.contains(r) && r.path == t.path implies r == t by {
            let m = choose|m: int| 0 <= m < s.len() && s[m] == r;
            if m < rows.len() {
                assert(s[m] == rows[m]);
                assert(has_path(rows, t.path));
            }
        }
        assert forall|i: int| 0 <= i < rows.len() && rows[i].path != t.path implies s.contains(
            #[trigger] rows[i],
        ) by {
            assert(s[i] == rows[i]);
        }
    }
}

/// Storing a track under a path the store lacks and then deleting that path
/// gives the rows back.
pub proof fn law_store_then_delete(rows: Seq<TrackRecord>, t: TrackRecord)
    requires
        !has_path(rows, t.path),
    ensures
        stored(rows, t).filter(other_path_filter(t.path)) == rows,
{
    let p = other_path_filter(t.path);
    assert forall|i: int| 0 <= i < rows.len() implies p(#[trigger] rows[i]) by {
        if rows[i].path == t.path {
            assert(has_path(rows, t.path));
        }
    }
    lemma_filter_keeps_all(rows, p);
    reveal(Seq::filter);
    assert(rows.push(t).drop_last() =~= rows);
}

/// Reading the scan statistics after recording them gives what was recorded,
/// and recording them leaves the tracks and the playback position alone.
pub proof fn law_stats_round_trip(v: MusicStatsView, track_count: usize, album_count: usize, timestamp: u64)
    ensures
        ({
            let w = MusicStatsView { track_count, album_count, last_scanned: timestamp, ..v };
            &&& (w.track_count, w.album_count, w.last_scanned) == (track_count, album_count, timestamp)
            &&& w.rows == v.rows
            &&& w.last_path == v.last_path
            &&& w.last_position_ms == v.last_position_ms
            &&& w.last_state == v.last_state
        }),
{
}

/// Reading the playback position after saving it gives what was saved, and
/// saving it leaves the tracks and the scan statistics alone.
pub proof fn law_playback_round_trip(v: MusicStatsView, path: Option<Seq<char>>, position_ms: u64, state: Seq<char>)
    ensures
        ({
            let w = MusicStatsView { last_path: path, last_position_ms: position_ms, last_state: state, ..v };
            &&& w.last_path == path
            &&& w.last_position_ms == position_ms
            &&& w.last_state == state
            &&& w.rows == v.rows
            &&& (w.track_count, w.album_count, w.last_scanned) == (v.track_count, v.album_count, v.last_scanned)
        }),
{
}

/// A search for `query` takes exactly the tracks whose title, artist or album
/// contains the lower-cased query, ASCII letters compared without regard to
/// case; this holds for a query whose lower-cased form has no `%` or `_`,
/// which the pattern reads as wildcards.
pub proof fn law_search_contains(r: TrackRecord, query: Seq<char>)
    requires
        no_wildcards(lowercase_of(query)),
    ensures
        matches_search(r, search_pattern(query)) <==> (contains_folded(r.title, lowercase_of(query))
            || contains_folded(r.artist, lowercase_of(query)) || contains_folded(
            r.album,
            lowercase_of(query),
        )),
{
    law_like_contains(r.title, lowercase_of(query));
    law_like_contains(r.artist, lowercase_of(query));
    law_like_contains(r.album, lowercase_of(query));
}

/// For an ASCII query without `%` or `_`, whose lower-cased form the search
/// uses as `search_tracks` states, a track is found exactly when its title,
/// artist or album contains the query, ASCII letters compared without
/// regard to case.
pub proof fn law_search_ascii_query(r: TrackRecord, query: Seq<char>)
    requires
        no_wildcards(query),
    ensures
        matches_search(r, contains_pattern(ascii_lower(query))) <==> (contains_folded(r.title, query)
            || contains_folded(r.artist, query) || contains_folded(r.album, query)),
{
    lemma_ascii_lower_search(r.title, query);
    lemma_ascii_lower_search(r.artist, query);
    lemma_ascii_lower_search(r.album, query);
    law_like_contains(r.title, ascii_lower(query));
    law_like_contains(r.artist, ascii_lower(query));
    law_like_contains(r.album, ascii_lower(query));
}

/// A directory entry that a scan of the music folder reads: its name, its
/// path, its kind, and the duration its file is stored with if it is new.
pub struct FoundEntry {
    /// The entry's file name.
    pub name: Seq<char>,
    /// The entry's path.
    pub path: Seq<char>,
    /// What the entry is.
    pub kind: EntryKind,
    /// The duration a new music file is stored with.
    pub duration_ms: u64,
}

/// The rows after the scan finds the music file `path`: as they were if the
/// store has the path, else with the file's record added last (as
/// `contains_path`, `scanned_track` and `insert_track` do it).
pub open spec fn store_found(rows: Seq<TrackRecord>, path: Seq<char>, duration_ms: u64) -> Seq<TrackRecord> {
    if has_path(rows, path) {
        rows
    } else {
        stored(rows, scanned_record(path, duration_ms))
    }
}

/// A scan that reads `entries` in order, from the rows `rows`: the rows
/// after it, the music files it counts and the directories it counts, each
/// entry taken as `MusicScan::visit` and `record_track` take it.
pub open spec fn scan_pass(rows: Seq<TrackRecord>, entries: Seq<FoundEntry>) -> (Seq<TrackRecord>, nat, nat)
    decreases entries.len(),
{
    if entries.len() == 0 {
        (rows, 0, 0)
    } else {
        let (r, t, a) = scan_pass(rows, entries.drop_last());
        let e = entries.last();
        match scan_step(e.name, e.kind) {
            ScanStep::Track => (store_found(r, e.path, e.duration_ms), t + 1, a),
            ScanStep::Descend => (r, t, a + 1),
            ScanStep::Skip => (r, t, a),
        }
    }
}

/// Two reads of a folder that did not change: the same entries in the same
/// order (the durations a decoder gives may differ).
pub open spec fn same_entries(a: Seq<FoundEntry>, b: Seq<FoundEntry>) -> bool {
    &&& a.len() == b.len()
    &&& forall|i: int|
        0 <= i < a.len() ==> (#[trigger] a[i]).name == b[i].name && a[i].path == b[i].path && a[i].kind
            == b[i].kind
}

proof fn lemma_scan_counts(r1: Seq<TrackRecord>, r2: Seq<TrackRecord>, a: Seq<FoundEntry>, b: Seq<FoundEntry>)
    requires
        same_entries(a, b),
    ensures
        scan_pass(r1, a).1 == scan_pass(r2, b).1,
        scan_pass(r1, a).2 == scan_pass(r2, b).2,
    decreases a.len(),
{
    if a.len() > 0 {
        assert(same_entries(a.drop_last(), b.drop_last())) by {
            assert forall|i: int| 0 <= i < a.drop_last().len() implies (#[trigger] a.drop_last()[i]).name
                == b.drop_last()[i].name && a.drop_last()[i].path == b.drop_last()[i].path
                && a.drop_last()[i].kind == b.drop_last()[i].kind by {
                assert(a[i].name == b[i].name);
            }
        }
        lemma_scan_counts(r1, r2, a.drop_last(), b.drop_last());
        assert(a.last().name == b.last().name && a.last().kind == b.last().kind) by {
            assert(a[a.len() - 1].name == b[a.len() - 1].name);
        }
    }
}

proof fn lemma_store_found_has(rows: Seq<TrackRecord>, path: Seq<char>, d: u64, p: Seq<char>)
    ensures
        has_path(store_found(rows, path, d), path),
        has_path(rows, p) ==> has_path(store_found(rows, path, d), p),
{
    if !has_path(rows, path) {
        let s = rows.push(scanned_record(path, d));
        assert(s[rows.len() as int].path == path);
        if has_path(rows, p) {
            let i = choose|i: int| 0 <= i < rows.len() && (#[trigger] rows[i]).path == p;
            assert(s[i] == rows[i]);
        }
    }
}

proof fn lemma_scan_stores(rows: Seq<TrackRecord>, es: Seq<FoundEntry>, p: Seq<char>)
    ensures
        has_path(rows, p) ==> has_path(scan_pass(rows, es).0, p),
        forall|i: int|
            0 <= i < es.len() && scan_step(es[i].name, es[i].kind) == ScanStep::Track ==> has_path(
                scan_pass(rows, es).0,
                #[trigger] es[i].path,
            ),
    decreases es.len(),
{
    if es.len() > 0 {
        let u = es.drop_last();
        let e = es.last();
        let r = scan_pass(rows, u).0;
        lemma_scan_stores(rows, u, p);
        assert forall|i: int|
            0 <= i < es.len() && scan_step(es[i].name, es[i].kind) == ScanStep::Track implies has_path(
            scan_pass(rows, es).0,
            #[trigger] es[i].path,
        ) by {
            if i < es.len() - 1 {
                assert(u[i] == es[i]);
                lemma_scan_stores(rows, u, es[i].path);
                assert(has_path(r, es[i].path));
                lemma_store_found_has(r, e.path, e.duration_ms, es[i].path);
            } else {
                lemma_store_found_has(r, e.path, e.duration_ms, e.path);
            }
        }
        lemma_store_found_has(r, e.path, e.duration_ms, p);
    }
}

proof fn lemma_scan_nothing_new(rows: Seq<TrackRecord>, es: Seq<FoundEntry>)
    requires
        forall|i: int|
            0 <= i < es.len() && scan_step(es[i].name, es[i].kind) == ScanStep::Track ==> has_path(
                rows,
                #[trigger] es[i].path,
            ),
    ensures
        scan_pass(rows, es).0 == rows,
    decreases es.len(),
{
    if es.len() > 0 {
        let u = es.drop_last();
        assert forall|i: int|
            0 <= i < u.len() && scan_step(u[i].name, u[i].kind) == ScanStep::Track implies has_path(
            rows,
            #[trigger] u[i].path,
        ) by {
            assert(u[i] == es[i]);
        }
        lemma_scan_nothing_new(rows, u);
        let e = es.last();
        assert(e == es[es.len() - 1]);
    }
}

/// Scanning a folder that did not change a second time stores nothing new
/// and counts the same music files and directories as the first scan.
pub proof fn law_rescan_unchanged(rows: Seq<TrackRecord>, first: Seq<FoundEntry>, second: Seq<FoundEntry>)
    requires
        same_entries(first, second),
    ensures
        ({
            let one = scan_pass(rows, first);
            let two = scan_pass(one.0, second);
            two.0 == one.0 && two.1 == one.1 && two.2 == one.2
        }),
{
    let one = scan_pass(rows, first);
    lemma_scan_counts(rows, one.0, first, second);
    lemma_scan_stores(rows, first, Seq::empty());
    assert forall|i: int|
        0 <= i < second.len() && scan_step(second[i].name, second[i].kind) == ScanStep::Track implies has_path(
        one.0,
        #[trigger] second[i].path,
    ) by {
        assert(first[i].name == second[i].name && first[i].path == second[i].path && first[i].kind
            == second[i].kind);
        assert(scan_step(first[i].name, first[i].kind) == ScanStep::Track);
        assert(has_path(one.0, first[i].path));
    }
    lemma_scan_nothing_new(one.0, second);
}

/// A store's rows keep a path unique whatever rows it was opened on.
proof fn lemma_load_rows_unique(s: Seq<TrackRecord>)
    ensures
        paths_unique(load_rows(s)),
    decreases s.len(),
{
    if s.len() > 0 {
        lemma_load_rows_unique(s.drop_last());
        law_store_then_lookup(load_rows(s.drop_last()), s.last());
    }
}

/// Opening a store on rows whose paths are unique (as its file keeps them)
/// keeps every row as it is, in order.
pub proof fn law_open_keeps_rows(s: Seq<TrackRecord>)
    requires
        paths_unique(s),
    ensures
        load_rows(s) == s,
    decreases s.len(),
{
    if s.len() > 0 {
        let u = s.drop_last();
        assert(paths_unique(u)) by {
            assert forall|i: int, j: int| 0 <= i < j < u.len() implies (#[trigger] u[i]).path != (
            #[trigger] u[j]).path by {
                assert(u[i] == s[i] && u[j] == s[j]);
            }
        }
        law_open_keeps_rows(u);
        if has_path(u, s.last().path) {
            let k = choose|k: int| 0 <= k < u.len() && (#[trigger] u[k]).path == s.last().path;
            assert(s[k] == u[k]);
            assert(s[k].path != s[s.len() - 1].path);
        }
        assert(u.push(s.last()) =~= s);
    }
}

/// Opening a store again on the rows it holds changes nothing: opening twice
/// is opening once.
pub proof fn law_reopen(s: Seq<TrackRecord>)
    ensures
        load_rows(load_rows(s)) == load_rows(s),
{
    lemma_load_rows_unique(s);
    law_open_keeps_rows(load_rows(s));
}

/// Two distinct rows tie in the play-count order: same plays and same title.
pub open spec fn plays_title_tie(x: TrackRecord, y: TrackRecord) -> bool {
    x.play_count == y.play_count && x.title == y.title
}

/// Listings sorted by play count (descending, then title) of rows no two of
/// which differ yet tie are the same: the rows are kept and the order leaves
/// no choice.
proof fn lemma_sorted_unique(a: Seq<TrackRecord>, b: Seq<TrackRecord>)
    requires
        a.to_multiset() == b.to_multiset(),
        tracks_sorted(SortMode::PlayCountDesc, a),
        tracks_sorted(SortMode::PlayCountDesc, b),
        forall|x: TrackRecord, y: TrackRecord|
            a.contains(x) && a.contains(y) && x != y ==> !plays_title_tie(x, y),
    ensures
        a == b,
    decreases a.len(),
{
    broadcast use vstd::multiset::group_multiset_axioms;
    a.to_multiset_ensures();
    b.to_multiset_ensures();
    if a.len() == 0 {
        assert(b.len() == 0);
        assert(a =~= b);
    } else {
        assert(b.len() == a.len());
        let x = a.last();
        let y = b.last();
        assert(a[a.len() - 1] == x);
        assert(b[b.len() - 1] == y);
        vstd::seq_lib::to_multiset_contains(a, x);
        vstd::seq_lib::to_multiset_contains(b, x);
        vstd::seq_lib::to_multiset_contains(a, y);
        vstd::seq_lib::to_multiset_contains(b, y);
        assert(b.contains(x));
        assert(a.contains(y));
        let k = choose|k: int| 0 <= k < b.len() && b[k] == x;
        let m = choose|m: int| 0 <= m < a.len() && a[m] == y;
        if x != y {
            assert(k < b.len() - 1);
            assert(m < a.len() - 1);
            assert(track_le(SortMode::PlayCountDesc, b[k], b[b.len() - 1]));
            assert(track_le(SortMode::PlayCountDesc, a[m], a[a.len() - 1]));
            assert(x.play_count == y.play_count);
            crate::text::lemma_text_le_antisym(x.title, y.title);
            assert(plays_title_tie(x, y));
            assert(a.contains(x) && a.contains(y));
            assert(false);
        }
        let ua = a.drop_last();
        let ub = b.drop_last();
        assert(ua.push(x) =~= a);
        assert(ub.push(x) =~= b);
        vstd::seq_lib::to_multiset_build(ua, x);
        vstd::seq_lib::to_multiset_build(ub, x);
        assert(a.to_multiset() == ua.to_multiset().insert(x));
        assert(b.to_multiset() == ub.to_multiset().insert(x));
        assert(ua.to_multiset() =~= ub.to_multiset()) by {
            assert forall|e: TrackRecord| ua.to_multiset().count(e) == ub.to_multiset().count(e) by {
                assert(a.to_multiset().count(e) == b.to_multiset().count(e));
                assert(ua.to_multiset().insert(x).count(e) == ua.to_multiset().count(e) + if e == x {
                    1nat
                } else {
                    0nat
                });
                assert(ub.to_multiset().insert(x).count(e) == ub.to_multiset().count(e) + if e == x {
                    1nat
                } else {
                    0nat
                });
            }
        }
        assert forall|i: int, j: int| 0 <= i < j < ua.len() implies track_le(
            SortMode::PlayCountDesc,
            #[trigger] ua[i],
            #[trigger] ua[j],
        ) by {
            assert(ua[i] == a[i] && ua[j] == a[j]);
        }
        assert forall|i: int, j: int| 0 <= i < j < ub.len() implies track_le(
            SortMode::PlayCountDesc,
            #[trigger] ub[i],
            #[trigger] ub[j],
        ) by {
            assert(ub[i] == b[i] && ub[j] == b[j]);
        }
        assert forall|p: TrackRecord, q: TrackRecord|
            ua.contains(p) && ua.contains(q) && p != q implies !plays_title_tie(p, q) by {
            let i = choose|i: int| 0 <= i < ua.len() && ua[i] == p;
            let j = choose|j: int| 0 <= j < ua.len() && ua[j] == q;
            assert(a[i] == p && a[j] == q);
        }
        lemma_sorted_unique(ua, ub);
    }
}

/// The listing by play count and the listing sorted in the play-count
/// descending mode are the same list wherever no two tracks share both play
/// count and title: both are the store's tracks ordered by plays descending,
/// then title, which then leaves no choice.
pub proof fn law_play_count_listings_agree(rows: Seq<TrackRecord>, a: Seq<TrackRecord>, b: Seq<TrackRecord>)
    requires
        a.to_multiset() == rows.to_multiset(),
        b.to_multiset() == rows.to_multiset(),
        tracks_sorted(SortMode::PlayCountDesc, a),
        tracks_sorted(SortMode::PlayCountDesc, b),
        forall|i: int, j: int| 0 <= i < j < rows.len() ==> !plays_title_tie(#[trigger] rows[i], #[trigger] rows[j]),
    ensures
        a == b,
{
    broadcast use vstd::multiset::group_multiset_axioms;
    a.to_multiset_ensures();
    rows.to_multiset_ensures();
    assert forall|x: TrackRecord, y: TrackRecord|
        a.contains(x) && a.contains(y) && x != y implies !plays_title_tie(x, y) by {
        vstd::seq_lib::to_multiset_contains(a, x);
        vstd::seq_lib::to_multiset_contains(a, y);
        vstd::seq_lib::to_multiset_contains(rows, x);
        vstd::seq_lib::to_multiset_contains(rows, y);
        assert(rows.contains(x) && rows.contains(y));
        let i = choose|i: int| 0 <= i < rows.len() && rows[i] == x;
        let j = choose|j: int| 0 <= j < rows.len() && rows[j] == y;
        if i < j {
            assert(!plays_title_tie(rows[i], rows[j]));
        } else {
            assert(!plays_title_tie(rows[j], rows[i]));
        }
    }
    lemma_sorted_unique(a, b);
}

} // verus!
