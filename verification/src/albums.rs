//! Album listing of the music statistics store: the tracks grouped by album
//! directory, with their number and total plays.
use vstd::prelude::*;
use crate::order::{SortMode, ModeOrdered, sort_by_mode, sorted_by_mode};
use crate::text::{text_le, text_le_exec, copy_string};
use crate::music_db::{TrackRecord, AlbumInfo, AlbumRecord, in_album_filter};

verus! {

broadcast use vstd::seq_lib::group_seq_properties;

/// Total plays of a sequence of rows.
pub open spec fn play_total(rows: Seq<TrackRecord>) -> nat
    decreases rows.len(),
{
    if rows.len() == 0 {
        0
    } else {
        play_total(rows.drop_last()) + (rows.last().play_count as nat)
    }
}

/// The rows of one album.
pub open spec fn album_rows(rows: Seq<TrackRecord>, album: Seq<char>) -> Seq<TrackRecord> {
    rows.filter(in_album_filter(album))
}

/// Total plays of one album.
pub open spec fn album_plays(rows: Seq<TrackRecord>, album: Seq<char>) -> nat {
    play_total(album_rows(rows, album))
}

/// The artist an album entry carries: that of the album's first track in
/// storage order (its tracks may name different artists).
pub open spec fn album_artist(rows: Seq<TrackRecord>, album: Seq<char>) -> Seq<char> {
    album_rows(rows, album)[0].artist
}

/// Album `a` (with `a_plays` plays) comes no later than album `b` in a
/// listing sorted by `mode`: names are the album names, compared by their
/// UTF-8 bytes; play counts are the albums' total plays.
pub open spec fn album_le(mode: SortMode, a: Seq<char>, a_plays: nat, b: Seq<char>, b_plays: nat) -> bool {
    match mode {
        SortMode::NameAsc => text_le(a, b),
        SortMode::NameDesc => text_le(b, a),
        SortMode::PlayCountAsc => a_plays < b_plays || (a_plays == b_plays && text_le(a, b)),
        SortMode::PlayCountDesc => a_plays > b_plays || (a_plays == b_plays && text_le(a, b)),
    }
}

/// The position in `v` of an entry with the album of row `r`
/// (any position if there is none).
pub open spec fn entry_of(v: Seq<AlbumRecord>, r: TrackRecord) -> int {
    choose|k: int| 0 <= k < v.len() && v[k].album == r.album
}

/// `v` is the album listing of `rows` sorted by `mode`: one entry per
/// album (directory) that some row has, with the number of its rows, the
/// artist of its first row, the album as its directory, in the order `mode`.
pub open spec fn is_album_listing(rows: Seq<TrackRecord>, mode: SortMode, v: Seq<AlbumRecord>) -> bool {
    &&& forall|k: int|
        0 <= k < v.len() ==> {
            &&& (#[trigger] v[k]).directory == v[k].album
            &&& v[k].track_count == album_rows(rows, v[k].album).len()
            &&& album_rows(rows, v[k].album).len() > 0
            &&& v[k].artist == album_artist(rows, v[k].album)
        }
    &&& forall|i: int|
        0 <= i < rows.len() ==> 0 <= #[trigger] entry_of(v, rows[i]) < v.len() && v[entry_of(
            v,
            rows[i],
        )].album == rows[i].album
    &&& forall|k: int, l: int|
        0 <= k < l < v.len() ==> !((#[trigger] v[k]).album == (#[trigger] v[l]).album)
    &&& forall|k: int, l: int|
        0 <= k < l < v.len() ==> album_le(
            mode,
            (#[trigger] v[k]).album,
            album_plays(rows, v[k].album),
            (#[trigger] v[l]).album,
            album_plays(rows, v[l].album),
        )
}

/// The largest sum SQLite can hold as an integer.
pub open spec fn max_sum() -> nat {
    0x7fff_ffff_ffff_ffff
}

/// Some album's total plays exceed what SQLite's integer sum holds.
pub open spec fn album_plays_overflow(rows: Seq<TrackRecord>) -> bool {
    exists|i: int|
        0 <= i < rows.len() && album_plays(rows, (#[trigger] rows[i]).album) > max_sum()
}

/// The values of a sequence of album summaries.
pub open spec fn album_records(v: Seq<AlbumInfo>) -> Seq<AlbumRecord> {
    v.map_values(|a: AlbumInfo| a@)
}

/// One album group under construction.
pub struct AlbumGroup {
    pub album: String,
    pub artist: String,
    pub count: usize,
    pub total: u128,
}

/// Group `g` is that of row `r`: same album.
pub open spec fn same_key(g: AlbumGroup, r: TrackRecord) -> bool {
    g.album@ == r.album
}

impl ModeOrdered for AlbumGroup {
    open spec fn mode_le(self, other: Self, mode: SortMode) -> bool {
        album_le(mode, self.album@, self.total as nat, other.album@, other.total as nat)
    }

    fn le_by_mode(&self, other: &Self, mode: SortMode) -> (r: bool) {
        match mode {
            SortMode::NameAsc => text_le_exec(&self.album, &other.album),
            SortMode::NameDesc => text_le_exec(&other.album, &self.album),
            SortMode::PlayCountAsc => self.total < other.total || (self.total == other.total
                && text_le_exec(&self.album, &other.album)),
            SortMode::PlayCountDesc => self.total > other.total || (self.total == other.total
                && text_le_exec(&self.album, &other.album)),
        }
    }

    proof fn lemma_mode_total(a: Self, b: Self, mode: SortMode) {
        crate::text::lemma_bytes_le_total(
            vstd::utf8::encode_utf8(a.album@),
            vstd::utf8::encode_utf8(b.album@),
        );
    }

    proof fn lemma_mode_trans(a: Self, b: Self, c: Self, mode: SortMode) {
        let ea = vstd::utf8::encode_utf8(a.album@);
        let eb = vstd::utf8::encode_utf8(b.album@);
        let ec = vstd::utf8::encode_utf8(c.album@);
        match mode {
            SortMode::NameDesc => {
                crate::text::lemma_bytes_le_trans(ec, eb, ea);
            },
            _ => {
                if crate::text::bytes_le(ea, eb) && crate::text::bytes_le(eb, ec) {
                    crate::text::lemma_bytes_le_trans(ea, eb, ec);
                }
            },
        }
    }
}

/// A group describes the rows `rows` hold for its key.
pub open spec fn group_ok(g: AlbumGroup, rows: Seq<TrackRecord>) -> bool {
    &&& g.count == album_rows(rows, g.album@).len()
    &&& g.total == album_plays(rows, g.album@)
    &&& g.artist@ == album_artist(rows, g.album@)
    &&& g.count > 0
}

/// A group with the key of row `r`.
pub open spec fn group_of(gs: Seq<AlbumGroup>, r: TrackRecord) -> int {
    choose|g: int| 0 <= g < gs.len() && same_key(gs[g], r)
}

/// Every row has a group with its key.
pub open spec fn covers(gs: Seq<AlbumGroup>, rows: Seq<TrackRecord>) -> bool {
    forall|k: int|
        0 <= k < rows.len() ==> 0 <= #[trigger] group_of(gs, rows[k]) < gs.len() && same_key(
            gs[group_of(gs, rows[k])],
            rows[k],
        )
}

/// No two groups have the same album.
pub open spec fn keys_unique(gs: Seq<AlbumGroup>) -> bool {
    forall|a: int, b: int|
        0 <= a < b < gs.len() ==> !((#[trigger] gs[a]).album@ == (#[trigger] gs[b]).album@)
}

proof fn lemma_no_match_filter_empty(s: Seq<TrackRecord>, p: spec_fn(TrackRecord) -> bool)
    requires
        forall|k: int| 0 <= k < s.len() ==> !p(#[trigger] s[k]),
    ensures
        s.filter(p).len() == 0,
    decreases s.len(),
{
    reveal(Seq::filter);
    if s.len() > 0 {
        lemma_no_match_filter_empty(s.drop_last(), p);
    }
}

proof fn lemma_filter_nonempty_has_row(s: Seq<TrackRecord>, p: spec_fn(TrackRecord) -> bool)
    requires
        s.filter(p).len() > 0,
    ensures
        exists|k: int| 0 <= k < s.len() && p(#[trigger] s[k]),
{
    if !(exists|k: int| 0 <= k < s.len() && p(#[trigger] s[k])) {
        lemma_no_match_filter_empty(s, p);
    }
}

proof fn lemma_total_bound(count: int, total: int, play: int)
    requires
        0 <= count < 0x1_0000_0000_0000_0000,
        0 <= total <= count * 0xffff_ffff_ffff_ffff,
        0 <= play <= 0xffff_ffff_ffff_ffff,
    ensures
        total + play <= (count + 1) * 0xffff_ffff_ffff_ffff,
        (count + 1) * 0xffff_ffff_ffff_ffff <= 0xffff_ffff_ffff_ffff_ffff_ffff_ffff_ffff,
{
    assert((count + 1) * 0xffff_ffff_ffff_ffff <= 0x1_0000_0000_0000_0000 * 0xffff_ffff_ffff_ffff)
        by (nonlinear_arith)
        requires
            0 <= count < 0x1_0000_0000_0000_0000,
    ;
}

/// Groups the rows by album: one group per album that some row has, with
/// the artist of its first row, the number of its rows and their total
/// plays.
pub fn group_rows(tracks: &Vec<crate::music_db::TrackStat>) -> (gs: Vec<AlbumGroup>)
    ensures
        keys_unique(gs@),
        forall|g: int| 0 <= g < gs@.len() ==> group_ok(#[trigger] gs@[g], crate::music_db::records(tracks@)),
        covers(gs@, crate::music_db::records(tracks@)),
{
    let ghost rows = crate::music_db::records(tracks@);
    let mut gs: Vec<AlbumGroup> = Vec::new();
    let mut i: usize = 0;
    while i < tracks.len()
        invariant
            i <= tracks.len(),
            rows == crate::music_db::records(tracks@),
            keys_unique(gs@),
            forall|g: int| 0 <= g < gs@.len() ==> group_ok(#[trigger] gs@[g], rows.take(i as int)),
            forall|g: int|
                0 <= g < gs@.len() ==> (#[trigger] gs@[g]).count <= i && gs@[g].total <= gs@[g].count
                    * 0xffff_ffff_ffff_ffff,
            forall|k: int|
                0 <= k < i ==> exists|g: int| 0 <= g < gs@.len() && same_key(#[trigger] gs@[g], #[trigger] rows[k]),
        decreases tracks.len() - i,
    {
        let t = &tracks[i];
        let ghost x = rows[i as int];
        let ghost p = rows.take(i as int);
        proof {
            assert(t@ == x);
            rows.lemma_take_succ_push(i as int);
            assert(rows.take(i + 1) == p.push(x));
        }
        let mut j: usize = 0;
        while j < gs.len() && !(gs[j].album == t.album)
            invariant
                j <= gs.len(),
                x == t@,
                forall|q: int| 0 <= q < j ==> !same_key(#[trigger] gs@[q], x),
            decreases gs.len() - j,
        {
            j += 1;
        }
        let ghost old_gs = gs@;
        if j < gs.len() {
            proof {
                assert(same_key(gs@[j as int], x));
                lemma_total_bound(gs@[j as int].count as int, gs@[j as int].total as int, x.play_count as int);
            }
            let g = AlbumGroup {
                album: copy_string(&gs[j].album),
                artist: copy_string(&gs[j].artist),
                count: gs[j].count + 1,
                total: gs[j].total + t.play_count as u128,
            };
            gs.set(j, g);
            proof {
                assert forall|q: int| 0 <= q < gs@.len() implies group_ok(#[trigger] gs@[q], rows.take(i + 1)) by {
                    let f = in_album_filter(gs@[q].album@);
                    p.lemma_filter_push(x, f);
                    if q == j {
                        assert(old_gs[q].album@ == gs@[q].album@);
                        assert(group_ok(old_gs[q], p));
                        assert(p.filter(f).push(x).drop_last() =~= p.filter(f));
                    } else {
                        assert(gs@[q] == old_gs[q]);
                        assert(group_ok(old_gs[q], p));
                        if f(x) {
                            if q < j {
                                assert(!(old_gs[q].album@ == old_gs[j as int].album@));
                            } else {
                                assert(!(old_gs[j as int].album@ == old_gs[q].album@));
                            }
                        }
                    }
                }
                assert forall|k: int| 0 <= k < i + 1 implies exists|g: int|
                    0 <= g < gs@.len() && same_key(#[trigger] gs@[g], #[trigger] rows[k]) by {
                    if k == i {
                        assert(same_key(gs@[j as int], rows[k]));
                    } else {
                        let g = choose|g: int| 0 <= g < old_gs.len() && same_key(old_gs[g], rows[k]);
                        if g == j {
                            assert(same_key(gs@[j as int], rows[k]));
                        } else {
                            assert(same_key(gs@[g], rows[k]));
                        }
                    }
                }
                assert(keys_unique(gs@)) by {
                    assert forall|a: int, b: int| 0 <= a < b < gs@.len() implies !((#[trigger] gs@[a]).album@
                        == (#[trigger] gs@[b]).album@) by {
                        assert(gs@[a].album@ == old_gs[a].album@);
                        assert(gs@[b].album@ == old_gs[b].album@);
                    }
                }
            }
        } else {
            let g = AlbumGroup {
                album: copy_string(&t.album),
                artist: copy_string(&t.artist),
                count: 1,
                total: t.play_count as u128,
            };
            gs.push(g);
            proof {
                let fx = in_album_filter(x.album);
                assert forall|k: int| 0 <= k < p.len() implies !fx(#[trigger] p[k]) by {
                    assert(p[k] == rows[k]);
                    let g = choose|g: int| 0 <= g < old_gs.len() && same_key(old_gs[g], rows[k]);
                }
                lemma_no_match_filter_empty(p, fx);
                p.lemma_filter_push(x, fx);
                assert(p.filter(fx).push(x).drop_last() =~= p.filter(fx));
                assert(p.filter(fx) =~= Seq::<TrackRecord>::empty());
                assert(play_total(Seq::<TrackRecord>::empty()) == 0);
                assert(play_total(p.filter(fx).push(x)) == x.play_count);
                assert(gs@[old_gs.len() as int].album@ == x.album);
                assert(gs@[old_gs.len() as int].artist@ == x.artist);
                assert forall|q: int| 0 <= q < gs@.len() implies group_ok(#[trigger] gs@[q], rows.take(i + 1)) by {
                    let f = in_album_filter(gs@[q].album@);
                    p.lemma_filter_push(x, f);
                    if q < old_gs.len() {
                        assert(gs@[q] == old_gs[q]);
                        assert(group_ok(old_gs[q], p));
                    }
                }
                assert forall|k: int| 0 <= k < i + 1 implies exists|g: int|
                    0 <= g < gs@.len() && same_key(#[trigger] gs@[g], #[trigger] rows[k]) by {
                    if k == i {
                        assert(same_key(gs@[old_gs.len() as int], rows[k]));
                    } else {
                        let g = choose|g: int| 0 <= g < old_gs.len() && same_key(old_gs[g], rows[k]);
                        assert(same_key(gs@[g], rows[k]));
                    }
                }
                assert(keys_unique(gs@)) by {
                    assert forall|a: int, b: int| 0 <= a < b < gs@.len() implies !((#[trigger] gs@[a]).album@
                        == (#[trigger] gs@[b]).album@) by {
                        if b == old_gs.len() {
                            assert(!same_key(old_gs[a], x));
                        } else {
                            assert(gs@[a] == old_gs[a] && gs@[b] == old_gs[b]);
                        }
                    }
                }
            }
        }
        i += 1;
    }
    proof {
        assert(rows.take(rows.len() as int) =~= rows);
        assert(i == rows.len());
        assert forall|k: int| 0 <= k < rows.len() implies 0 <= #[trigger] group_of(gs@, rows[k]) < gs@.len()
            && same_key(gs@[group_of(gs@, rows[k])], rows[k]) by {
            let r = rows[k];
        }
    }
    gs
}

/// Reordering the groups keeps what each says and that keys are unique.
proof fn lemma_groups_permuted(u: Seq<AlbumGroup>, s: Seq<AlbumGroup>, rows: Seq<TrackRecord>)
    requires
        u.to_multiset() == s.to_multiset(),
        keys_unique(u),
        forall|g: int| 0 <= g < u.len() ==> group_ok(#[trigger] u[g], rows),
        covers(u, rows),
    ensures
        keys_unique(s),
        forall|g: int| 0 <= g < s.len() ==> group_ok(#[trigger] s[g], rows),
        covers(s, rows),
{
    assert forall|k: int| 0 <= k < s.len() implies #[trigger] u.contains(s[k]) by {
        vstd::seq_lib::to_multiset_contains(s, s[k]);
        vstd::seq_lib::to_multiset_contains(u, s[k]);
    }
    assert forall|g: int| 0 <= g < s.len() implies group_ok(#[trigger] s[g], rows) by {
        assert(u.contains(s[g]));
    }
    assert forall|k: int| 0 <= k < rows.len() implies 0 <= #[trigger] group_of(s, rows[k]) < s.len()
        && same_key(s[group_of(s, rows[k])], rows[k]) by {
        let g = group_of(u, rows[k]);
        vstd::seq_lib::to_multiset_contains(u, u[g]);
        vstd::seq_lib::to_multiset_contains(s, u[g]);
        let m = choose|m: int| 0 <= m < s.len() && s[m] == u[g];
        assert(same_key(s[m], rows[k]));
    }
    assert(u.no_duplicates()) by {
        assert forall|i: int, j: int| 0 <= i < u.len() && 0 <= j < u.len() && i != j implies u[i] != u[j] by {
            if i < j {
                assert(!(u[i].album@ == u[j].album@));
            } else {
                assert(!(u[j].album@ == u[i].album@));
            }
        }
    }
    u.lemma_multiset_has_no_duplicates();
    s.lemma_multiset_has_no_duplicates_conv();
    assert forall|a: int, b: int| 0 <= a < b < s.len() implies !((#[trigger] s[a]).album@
        == (#[trigger] s[b]).album@) by {
        assert(u.contains(s[a]));
        assert(u.contains(s[b]));
        let ia = choose|i: int| 0 <= i < u.len() && u[i] == s[a];
        let ib = choose|i: int| 0 <= i < u.len() && u[i] == s[b];
        assert(s[a] != s[b]);
        if ia < ib {
            assert(!(u[ia].album@ == u[ib].album@));
        } else {
            assert(!(u[ib].album@ == u[ia].album@));
        }
    }
}

/// The album listing of `tracks` sorted by `mode`, or `None` when some
/// album's total plays exceed what SQLite's integer sum holds.
pub fn album_listing(tracks: &Vec<crate::music_db::TrackStat>, mode: SortMode) -> (r: Option<Vec<AlbumInfo>>)
    ensures
        r is None <==> album_plays_overflow(crate::music_db::records(tracks@)),
        r matches Some(v) ==> is_album_listing(crate::music_db::records(tracks@), mode, album_records(v@)),
{
    let ghost rows = crate::music_db::records(tracks@);
    let gs = group_rows(tracks);
    let mut k: usize = 0;
    while k < gs.len()
        invariant
            k <= gs.len(),
            rows == crate::music_db::records(tracks@),
            forall|g: int| 0 <= g < gs@.len() ==> group_ok(#[trigger] gs@[g], rows),
            forall|g: int| 0 <= g < k ==> (#[trigger] gs@[g]).total <= max_sum(),
        decreases gs.len() - k,
    {
        if gs[k].total > 0x7fff_ffff_ffff_ffff {
            proof {
                let g = gs@[k as int];
                assert(group_ok(g, rows));
                lemma_filter_nonempty_has_row(rows, in_album_filter(g.album@));
                let i = choose|i: int| 0 <= i < rows.len() && in_album_filter(g.album@)(#[trigger] rows[i]);
                assert(album_plays(rows, rows[i].album) > max_sum());
            }
            return None;
        }
        k += 1;
    }
    proof {
        assert forall|i: int| 0 <= i < rows.len() implies album_plays(rows, (#[trigger] rows[i]).album) <= max_sum() by {
            let g = group_of(gs@, rows[i]);
            assert(group_ok(gs@[g], rows));
        }
    }
    let ghost unsorted = gs@;
    let sorted = sort_by_mode(gs, mode);
    proof {
        lemma_groups_permuted(unsorted, sorted@, rows);
    }
    let mut out: Vec<AlbumInfo> = Vec::new();
    let mut j: usize = 0;
    while j < sorted.len()
        invariant
            j <= sorted.len(),
            out@.len() == j,
            forall|q: int|
                0 <= q < j ==> (#[trigger] out@[q])@ == (AlbumRecord {
                    album: sorted@[q].album@,
                    artist: sorted@[q].artist@,
                    directory: sorted@[q].album@,
                    track_count: sorted@[q].count,
                }),
        decreases sorted.len() - j,
    {
        let a = AlbumInfo {
            album: copy_string(&sorted[j].album),
            artist: copy_string(&sorted[j].artist),
            directory: copy_string(&sorted[j].album),
            track_count: sorted[j].count,
        };
        out.push(a);
        j += 1;
    }
    proof {
        let v = album_records(out@);
        let s = sorted@;
        assert forall|q: int| 0 <= q < v.len() implies v[q] == (AlbumRecord {
            album: s[q].album@,
            artist: s[q].artist@,
            directory: s[q].album@,
            track_count: s[q].count,
        }) by {
            assert(v[q] == out@[q]@);
        }
        assert forall|q: int| 0 <= q < v.len() implies {
            &&& (#[trigger] v[q]).directory == v[q].album
            &&& v[q].track_count == album_rows(rows, v[q].album).len()
            &&& album_rows(rows, v[q].album).len() > 0
            &&& v[q].artist == album_artist(rows, v[q].album)
        } by {
            assert(group_ok(s[q], rows));
        }
        assert forall|i: int| 0 <= i < rows.len() implies 0 <= #[trigger] entry_of(v, rows[i]) < v.len()
            && v[entry_of(v, rows[i])].album == rows[i].album by {
            let g = group_of(s, rows[i]);
            assert(v[g].album == rows[i].album);
        }
        assert forall|a: int, b: int| 0 <= a < b < v.len() implies !((#[trigger] v[a]).album
            == (#[trigger] v[b]).album) by {
            assert(!((s[a]).album@ == (s[b]).album@));
        }
        assert forall|a: int, b: int| 0 <= a < b < v.len() implies album_le(
            mode,
            (#[trigger] v[a]).album,
            album_plays(rows, v[a].album),
            (#[trigger] v[b]).album,
            album_plays(rows, v[b].album),
        ) by {
            assert(s[a].mode_le(s[b], mode));
            assert(group_ok(s[a], rows));
            assert(group_ok(s[b], rows));
        }
    }
    Some(out)
}


/// The sum of the track counts of a listing.
pub open spec fn count_total(v: Seq<AlbumRecord>) -> nat
    decreases v.len(),
{
    if v.len() == 0 {
        0
    } else {
        count_total(v.drop_last()) + (v.last().track_count as nat)
    }
}

/// The number of rows in the albums of the entries of `v`.
spec fn rows_in(rows: Seq<TrackRecord>, v: Seq<AlbumRecord>) -> nat
    decreases v.len(),
{
    if v.len() == 0 {
        0
    } else {
        rows_in(rows, v.drop_last()) + album_rows(rows, v.last().album).len()
    }
}

/// Some entry of `v` has the album of row `r`.
spec fn has_entry(v: Seq<AlbumRecord>, r: TrackRecord) -> bool {
    exists|k: int| 0 <= k < v.len() && (#[trigger] v[k]).album == r.album
}

/// The number of entries of `v` with the album of row `r`.
spec fn key_hits(v: Seq<AlbumRecord>, r: TrackRecord) -> nat
    decreases v.len(),
{
    if v.len() == 0 {
        0
    } else {
        key_hits(v.drop_last(), r) + if v.last().album == r.album {
            1nat
        } else {
            0nat
        }
    }
}

proof fn lemma_filter_push(rows: Seq<TrackRecord>, r: TrackRecord, p: spec_fn(TrackRecord) -> bool)
    ensures
        rows.push(r).filter(p).len() == rows.filter(p).len() + if p(r) {
            1nat
        } else {
            0nat
        },
{
    reveal(Seq::filter);
    assert(rows.push(r).drop_last() =~= rows);
}

proof fn lemma_rows_in_push(rows: Seq<TrackRecord>, r: TrackRecord, v: Seq<AlbumRecord>)
    ensures
        rows_in(rows.push(r), v) == rows_in(rows, v) + key_hits(v, r),
    decreases v.len(),
{
    if v.len() > 0 {
        lemma_rows_in_push(rows, r, v.drop_last());
        lemma_filter_push(rows, r, in_album_filter(v.last().album));
    }
}

proof fn lemma_rows_in_empty(v: Seq<AlbumRecord>)
    ensures
        rows_in(Seq::<TrackRecord>::empty(), v) == 0,
    decreases v.len(),
{
    reveal(Seq::filter);
    if v.len() > 0 {
        lemma_rows_in_empty(v.drop_last());
    }
}

proof fn lemma_key_hits_one(v: Seq<AlbumRecord>, r: TrackRecord, k: int)
    requires
        0 <= k < v.len(),
        v[k].album == r.album,
        forall|a: int, b: int|
            0 <= a < b < v.len() ==> !((#[trigger] v[a]).album == (#[trigger] v[b]).album),
    ensures
        key_hits(v, r) == 1,
    decreases v.len(),
{
    let u = v.drop_last();
    if k == v.len() - 1 {
        lemma_key_hits_none(u, r);
    } else {
        assert(u[k] == v[k]);
        lemma_key_hits_one(u, r, k);
        assert(!(v.last().album == r.album)) by {
            assert(!(v[k].album == v[v.len() - 1].album));
        }
    }
}

proof fn lemma_key_hits_none(v: Seq<AlbumRecord>, r: TrackRecord)
    requires
        forall|a: int| 0 <= a < v.len() ==> !((#[trigger] v[a]).album == r.album),
    ensures
        key_hits(v, r) == 0,
    decreases v.len(),
{
    if v.len() > 0 {
        let u = v.drop_last();
        assert forall|a: int| 0 <= a < u.len() implies !((#[trigger] u[a]).album == r.album) by {
            assert(u[a] == v[a]);
        }
        lemma_key_hits_none(u, r);
        assert(!(v[v.len() - 1].album == r.album));
    }
}

proof fn lemma_rows_in_all(rows: Seq<TrackRecord>, v: Seq<AlbumRecord>)
    requires
        forall|i: int| 0 <= i < rows.len() ==> has_entry(v, #[trigger] rows[i]),
        forall|a: int, b: int|
            0 <= a < b < v.len() ==> !((#[trigger] v[a]).album == (#[trigger] v[b]).album),
    ensures
        rows_in(rows, v) == rows.len(),
    decreases rows.len(),
{
    if rows.len() == 0 {
        assert(rows =~= Seq::<TrackRecord>::empty());
        lemma_rows_in_empty(v);
    } else {
        let u = rows.drop_last();
        let r = rows.last();
        assert forall|i: int| 0 <= i < u.len() implies has_entry(v, #[trigger] u[i]) by {
            assert(u[i] == rows[i]);
        }
        lemma_rows_in_all(u, v);
        assert(u.push(r) =~= rows);
        lemma_rows_in_push(u, r, v);
        assert(has_entry(v, rows[rows.len() - 1]));
        let k = choose|k: int| 0 <= k < v.len() && (#[trigger] v[k]).album == r.album;
        lemma_key_hits_one(v, r, k);
    }
}

proof fn lemma_count_total(rows: Seq<TrackRecord>, v: Seq<AlbumRecord>)
    requires
        forall|k: int|
            0 <= k < v.len() ==> (#[trigger] v[k]).track_count == album_rows(rows, v[k].album).len(),
    ensures
        count_total(v) == rows_in(rows, v),
    decreases v.len(),
{
    if v.len() > 0 {
        let u = v.drop_last();
        assert forall|k: int| 0 <= k < u.len() implies (#[trigger] u[k]).track_count == album_rows(rows, u[k].album).len() by {
            assert(u[k] == v[k]);
        }
        lemma_count_total(rows, u);
        assert(v[v.len() - 1] == v.last());
    }
}

/// In an album listing every track is counted once: the track counts add
/// up to the number of tracks.
pub proof fn law_album_counts_add_up(rows: Seq<TrackRecord>, mode: SortMode, v: Seq<AlbumRecord>)
    requires
        is_album_listing(rows, mode, v),
    ensures
        count_total(v) == rows.len(),
{
    assert forall|i: int| 0 <= i < rows.len() implies has_entry(v, #[trigger] rows[i]) by {
        let k = entry_of(v, rows[i]);
        assert(v[k].album == rows[i].album);
    }
    assert forall|k: int| 0 <= k < v.len() implies (#[trigger] v[k]).track_count == album_rows(rows, v[k].album).len() by {
        assert(v[k].directory == v[k].album);
    }
    lemma_count_total(rows, v);
    lemma_rows_in_all(rows, v);
}

} // verus!
