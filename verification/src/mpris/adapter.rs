//! What an MPRIS player's properties mean: its name, and the track its
//! `Metadata` describes.
use vstd::prelude::*;
use crate::mpris::{PlaybackState, TrackInfo, TrackInfoView, opt_string_view, opt_track_view, status_state};
use crate::text::{chars_of, copy_string, string_of, str_eq, to_owned_string};

verus! {

broadcast use vstd::string::group_string_axioms;

/// The bus-name prefix of MPRIS players.
pub open spec fn mpris_prefix() -> Seq<char> {
    "org.mpris.MediaPlayer2."@
}

/// A player's name and source id: its bus name without the MPRIS prefix.
pub open spec fn player_name_spec(bus_name: Seq<char>) -> Seq<char> {
    if bus_name.len() >= mpris_prefix().len() && bus_name.take(mpris_prefix().len() as int) == mpris_prefix() {
        bus_name.skip(mpris_prefix().len() as int)
    } else {
        bus_name
    }
}

/// Whether `s` starts with `prefix`.
pub fn starts_with(s: &str, prefix: &str) -> (r: bool)
    ensures
        r == (prefix@.len() <= s@.len() && s@.take(prefix@.len() as int) == prefix@),
{
    let v = chars_of(s);
    let p = chars_of(prefix);
    let r = crate::paths::starts_with_range(&v, 0, v.len(), &p);
    proof {
        if p@.len() <= v@.len() {
            assert(v@.subrange(0, p@.len() as int) =~= v@.take(p@.len() as int));
        }
    }
    r
}

/// Whether a bus name is that of an MPRIS player.
pub fn is_mpris_name(bus_name: &str) -> (r: bool)
    ensures
        r == (mpris_prefix().len() <= bus_name@.len() && bus_name@.take(mpris_prefix().len() as int) == mpris_prefix()),
{
    starts_with(bus_name, "org.mpris.MediaPlayer2.")
}

/// A player's name and source id, from its bus name.
pub fn player_name(bus_name: &str) -> (r: String)
    ensures
        r@ == player_name_spec(bus_name@),
{
    if is_mpris_name(bus_name) {
        let v = chars_of(bus_name);
        let p = chars_of("org.mpris.MediaPlayer2.");
        proof {
            assert(v@.skip(p@.len() as int) =~= v@.subrange(p@.len() as int, v@.len() as int));
        }
        crate::text::string_of_range(&v, p.len(), v.len())
    } else {
        to_owned_string(bus_name)
    }
}

/// A value of a player's `Metadata`: a string, an array (with its string
/// elements, `None` for any other element), or anything else.
#[derive(Debug)]
pub enum MetadataValue {
    Text(String),
    List(Vec<Option<String>>),
    Other,
}

/// The value of a [`MetadataValue`].
pub enum MetadataValueView {
    Text(Seq<char>),
    List(Seq<Option<Seq<char>>>),
    Other,
}

impl View for MetadataValue {
    type V = MetadataValueView;

    open spec fn view(&self) -> MetadataValueView {
        match self {
            MetadataValue::Text(s) => MetadataValueView::Text(s@),
            MetadataValue::List(v) => MetadataValueView::List(v@.map_values(|o: Option<String>| opt_string_view(o))),
            MetadataValue::Other => MetadataValueView::Other,
        }
    }
}

/// A player's `Metadata`: its entries with string keys (a dictionary holds
/// each key once; where a key repeats, the first entry counts).
pub type Metadata = Vec<(String, MetadataValue)>;

/// The value of the entry with key `key`, the first if several have it.
pub open spec fn lookup(entries: Seq<(String, MetadataValue)>, key: Seq<char>) -> Option<MetadataValueView>
    decreases entries.len(),
{
    if entries.len() == 0 {
        None
    } else if entries[0].0@ == key {
        Some(entries[0].1@)
    } else {
        lookup(entries.drop_first(), key)
    }
}

/// The string a value holds, if it is a string.
pub open spec fn text_of(v: Option<MetadataValueView>) -> Option<Seq<char>> {
    match v {
        Some(MetadataValueView::Text(s)) => Some(s),
        _ => None,
    }
}

/// The string elements of an array, in order.
pub open spec fn texts(items: Seq<Option<Seq<char>>>) -> Seq<Seq<char>>
    decreases items.len(),
{
    if items.len() == 0 {
        Seq::empty()
    } else {
        let rest = texts(items.drop_last());
        match items.last() {
            Some(s) => rest.push(s),
            None => rest,
        }
    }
}

/// The parts joined with `sep` between each two.
pub open spec fn join_with(parts: Seq<Seq<char>>, sep: Seq<char>) -> Seq<char>
    decreases parts.len(),
{
    if parts.len() == 0 {
        Seq::empty()
    } else if parts.len() == 1 {
        parts[0]
    } else {
        join_with(parts.drop_last(), sep) + sep + parts.last()
    }
}

/// The artist a value names: the string elements of an array joined with
/// ", ", or the string itself, or nothing.
pub open spec fn artist_of(v: Option<MetadataValueView>) -> Seq<char> {
    match v {
        Some(MetadataValueView::List(items)) => join_with(texts(items), ", "@),
        Some(MetadataValueView::Text(s)) => s,
        _ => Seq::empty(),
    }
}

/// The track that `Metadata` describes for source `source_id`: title from
/// `xesam:title`, artist from `xesam:artist`, album from `xesam:album`; none
/// when both title and artist are empty.
pub open spec fn metadata_track(entries: Seq<(String, MetadataValue)>, source_id: Seq<char>) -> Option<TrackInfoView> {
    let title = match text_of(lookup(entries, "xesam:title"@)) {
        Some(s) => s,
        None => Seq::empty(),
    };
    let artist = artist_of(lookup(entries, "xesam:artist"@));
    let album = text_of(lookup(entries, "xesam:album"@));
    if title.len() == 0 && artist.len() == 0 {
        None
    } else {
        Some(TrackInfoView { title, artist, album, source_id, duration_ms: None, file_path: None })
    }
}

/// The entry with key `key`.
fn find_entry<'a>(entries: &'a Metadata, key: &str) -> (r: Option<&'a MetadataValue>)
    ensures
        match r {
            Some(v) => lookup(entries@, key@) == Some(v@),
            None => lookup(entries@, key@) is None,
        },
{
    let mut i: usize = 0;
    assert(entries@.skip(0) =~= entries@);
    while i < entries.len()
        invariant
            i <= entries.len(),
            lookup(entries@, key@) == lookup(entries@.skip(i as int), key@),
        decreases entries.len() - i,
    {
        assert(entries@.skip(i as int)[0] == entries@[i as int]);
        if str_eq(entries[i].0.as_str(), key) {
            return Some(&entries[i].1);
        }
        assert(entries@.skip(i as int).drop_first() =~= entries@.skip(i + 1));
        i += 1;
    }
    None
}

/// The string a value holds, if it is a string.
pub fn extract_string(v: Option<&MetadataValue>) -> (r: Option<String>)
    ensures
        opt_string_view(r) == text_of(match v {
            Some(x) => Some(x@),
            None => None,
        }),
{
    match v {
        Some(MetadataValue::Text(s)) => Some(copy_string(s)),
        _ => None,
    }
}

/// The string elements of an array joined with ", ".
fn join_texts(items: &Vec<Option<String>>) -> (r: String)
    ensures
        r@ == join_with(texts(items@.map_values(|o: Option<String>| opt_string_view(o))), ", "@),
{
    let ghost view = items@.map_values(|o: Option<String>| opt_string_view(o));
    let sep = chars_of(", ");
    let mut out: Vec<char> = Vec::new();
    let mut count: usize = 0;
    let mut i: usize = 0;
    while i < items.len()
        invariant
            i <= items.len(),
            view == items@.map_values(|o: Option<String>| opt_string_view(o)),
            sep@ == ", "@,
            out@ == join_with(texts(view.take(i as int)), ", "@),
            (count == 0) == (texts(view.take(i as int)).len() == 0),
        decreases items.len() - i,
    {
        let ghost before = texts(view.take(i as int));
        proof {
            assert(view.take(i + 1).drop_last() =~= view.take(i as int));
            assert(view.take(i + 1).last() == view[i as int]);
        }
        match &items[i] {
            Some(s) => {
                let piece = chars_of(s.as_str());
                if count > 0 {
                    let mut sep_copy = sep.clone();
                    out.append(&mut sep_copy);
                }
                let mut piece_copy = piece;
                out.append(&mut piece_copy);
                proof {
                    let after = before.push(s@);
                    assert(texts(view.take(i + 1)) == after);
                    if before.len() == 0 {
                        assert(join_with(after, ", "@) == after[0]);
                        assert(out@ =~= s@);
                    } else {
                        assert(after.drop_last() =~= before);
                        assert(out@ =~= join_with(before, ", "@) + ", "@ + s@);
                    }
                }
                if count < usize::MAX {
                    count = count + 1;
                }
            },
            None => {
                proof {
                    assert(texts(view.take(i + 1)) == before);
                }
            },
        }
        i += 1;
    }
    proof {
        assert(view.take(items.len() as int) =~= view);
    }
    string_of(&out)
}

/// The artist a value names.
fn artist_from(v: Option<&MetadataValue>) -> (r: String)
    ensures
        r@ == artist_of(match v {
            Some(x) => Some(x@),
            None => None,
        }),
{
    match v {
        Some(MetadataValue::List(items)) => join_texts(items),
        Some(MetadataValue::Text(s)) => copy_string(s),
        _ => String::new(),
    }
}

/// The track that a player's `Metadata` describes, for source `source_id`.
pub fn metadata_to_track(metadata: &Metadata, source_id: &str) -> (r: Option<TrackInfo>)
    ensures
        match r {
            Some(t) => metadata_track(metadata@, source_id@) == Some(t@),
            None => metadata_track(metadata@, source_id@) is None,
        },
{
    let title = match extract_string(find_entry(metadata, "xesam:title")) {
        Some(s) => s,
        None => String::new(),
    };
    let artist = artist_from(find_entry(metadata, "xesam:artist"));
    let album = extract_string(find_entry(metadata, "xesam:album"));
    if title.as_str().is_empty() && artist.as_str().is_empty() {
        return None;
    }
    Some(TrackInfo::new(title, artist, album, to_owned_string(source_id)))
}


/// The MPRIS player interface.
pub open spec fn player_interface() -> Seq<char> {
    "org.mpris.MediaPlayer2.Player"@
}

/// The value of an optional metadata value.
pub open spec fn opt_value_view(v: Option<&MetadataValue>) -> Option<MetadataValueView> {
    match v {
        Some(x) => Some(x@),
        None => None,
    }
}

/// What a `PropertiesChanged` signal of a player tells.
pub struct PropertyChange {
    /// The new playback state.
    pub state: Option<PlaybackState>,
    /// The new track.
    pub track: Option<TrackInfo>,
}

/// What a `PropertiesChanged` signal on interface `interface` tells, from its
/// changed `PlaybackStatus` and `Metadata` (`None` when it did not change or
/// is not a dictionary): on the player interface only, the state a string
/// status names, and the track the metadata describes for `source_id`.
pub fn property_change(interface: &str, status: Option<&MetadataValue>, metadata: Option<&Metadata>, source_id: &str) -> (r: PropertyChange)
    ensures
        r.state == if interface@ == player_interface() {
            match text_of(opt_value_view(status)) {
                Some(s) => Some(status_state(s)),
                None => None,
            }
        } else {
            None
        },
        opt_track_view(r.track) == if interface@ == player_interface() {
            match metadata {
                Some(m) => metadata_track(m@, source_id@),
                None => None,
            }
        } else {
            None
        },
{
    if !str_eq(interface, "org.mpris.MediaPlayer2.Player") {
        return PropertyChange { state: None, track: None };
    }
    let state = match extract_string(status) {
        Some(s) => Some(PlaybackState::from_status(s.as_str())),
        None => None,
    };
    let track = match metadata {
        Some(m) => metadata_to_track(m, source_id),
        None => None,
    };
    PropertyChange { state, track }
}

/// The track a player reports: the one read from it now, else the last one
/// known; either way with the player's source id.
pub fn reported_track(fetched: Option<TrackInfo>, cached: Option<TrackInfo>, source_id: &str) -> (r: Option<TrackInfo>)
    ensures
        opt_track_view(r) == match opt_track_view(fetched) {
            Some(t) => Some(TrackInfoView { source_id: source_id@, ..t }),
            None => match opt_track_view(cached) {
                Some(t) => Some(TrackInfoView { source_id: source_id@, ..t }),
                None => None,
            },
        },
{
    let t = match fetched {
        Some(t) => t,
        None => match cached {
            Some(t) => t,
            None => {
                return None;
            },
        },
    };
    Some(TrackInfo { source_id: to_owned_string(source_id), ..t })
}

/// The state a player reports: the one its `PlaybackStatus` (if it could be
/// read now) names, else the last one known.
pub fn reported_state(status: Option<&str>, cached: PlaybackState) -> (r: PlaybackState)
    ensures
        r == match status {
            Some(s) => status_state(s@),
            None => cached,
        },
{
    match status {
        Some(s) => PlaybackState::from_status(s),
        None => cached,
    }
}

/// The length that the texts of `items` take in a list joined with ", ":
/// each text with the separator after it.
pub open spec fn listed_len(items: Seq<Option<Seq<char>>>) -> nat
    decreases items.len(),
{
    if items.len() == 0 {
        0
    } else {
        listed_len(items.drop_last()) + match items.last() {
            Some(s) => s.len() + 2,
            None => 0,
        }
    }
}

proof fn lemma_listed_len_prefix(u: Seq<Option<Seq<char>>>, k: int)
    requires
        0 <= k <= u.len(),
    ensures
        listed_len(u.take(k)) == listed_len(u) || listed_len(u.take(k)) + 2 <= listed_len(u),
    decreases u.len(),
{
    if k == u.len() {
        assert(u.take(k) =~= u);
    } else {
        let v = u.drop_last();
        assert(u.take(k) =~= v.take(k));
        lemma_listed_len_prefix(v, k);
    }
}

proof fn lemma_listed_len_step(u: Seq<Option<Seq<char>>>, i: int)
    requires
        0 <= i < u.len(),
    ensures
        listed_len(u.take(i + 1)) == listed_len(u.take(i)) + match u[i] {
            Some(s) => s.len() + 2,
            None => 0,
        },
{
    assert(u.take(i + 1).drop_last() =~= u.take(i));
    assert(u.take(i + 1).last() == u[i]);
}

proof fn lemma_no_texts(u: Seq<Option<Seq<char>>>)
    requires
        texts(u).len() == 0,
    ensures
        listed_len(u) == 0,
        forall|i: int| 0 <= i < u.len() ==> u[i] is None,
    decreases u.len(),
{
    if u.len() > 0 {
        let v = u.drop_last();
        if u.last() is Some {
            assert(texts(u).len() == texts(v).len() + 1);
        }
        lemma_no_texts(v);
        assert forall|i: int| 0 <= i < u.len() implies u[i] is None by {
            if i < v.len() {
                assert(v[i] == u[i]);
            }
        }
    }
}

proof fn lemma_joined_list(items: Seq<Option<Seq<char>>>)
    ensures
        ({
            let r = join_with(texts(items), ", "@);
            &&& texts(items).len() == 0 ==> r.len() == 0 && listed_len(items) == 0
            &&& texts(items).len() > 0 ==> r.len() + 2 == listed_len(items)
            &&& forall|i: int|
                0 <= i < items.len() && #[trigger] items[i] is Some ==> r.subrange(
                    listed_len(items.take(i)) as int,
                    listed_len(items.take(i)) + items[i]->0.len() as int,
                ) == items[i]->0
            &&& forall|i: int|
                0 <= i < items.len() && #[trigger] items[i] is Some && listed_len(items.take(i + 1))
                    < listed_len(items) ==> r.subrange(
                    listed_len(items.take(i + 1)) - 2,
                    listed_len(items.take(i + 1)) as int,
                ) == ", "@
        }),
    decreases items.len(),
{
    reveal_strlit(", ");
    let sep = ", "@;
    assert(sep.len() == 2);
    if items.len() == 0 {
        return;
    }
    let u = items.drop_last();
    let x = items.last();
    lemma_joined_list(u);
    let ju = join_with(texts(u), sep);
    let r = join_with(texts(items), sep);
    assert forall|i: int| 0 <= i <= u.len() implies #[trigger] items.take(i) == u.take(i) by {
        assert(items.take(i) =~= u.take(i));
    }
    assert(items.take(u.len() as int) =~= u);
    match x {
        None => {
            assert(texts(items) == texts(u));
            assert forall|i: int|
                0 <= i < items.len() && #[trigger] items[i] is Some implies r.subrange(
                listed_len(items.take(i)) as int,
                listed_len(items.take(i)) + items[i]->0.len() as int,
            ) == items[i]->0 by {
                assert(i < u.len());
                assert(items[i] == u[i]);
            }
            assert forall|i: int|
                0 <= i < items.len() && #[trigger] items[i] is Some && listed_len(items.take(i + 1))
                    < listed_len(items) implies r.subrange(
                listed_len(items.take(i + 1)) - 2,
                listed_len(items.take(i + 1)) as int,
            ) == sep by {
                assert(i < u.len());
                assert(items[i] == u[i]);
                assert(items.take(i + 1) == u.take(i + 1));
            }
        },
        Some(s) => {
            let tu = texts(u);
            assert(texts(items) == tu.push(s));
            if tu.len() == 0 {
                lemma_no_texts(u);
                assert(r == s);
                assert(listed_len(items) == s.len() + 2);
                assert forall|i: int|
                    0 <= i < items.len() && #[trigger] items[i] is Some implies r.subrange(
                    listed_len(items.take(i)) as int,
                    listed_len(items.take(i)) + items[i]->0.len() as int,
                ) == items[i]->0 by {
                    if i < u.len() {
                        assert(items[i] == u[i]);
                    } else {
                        assert(r.subrange(0, s.len() as int) =~= s);
                    }
                }
                assert forall|i: int|
                    0 <= i < items.len() && #[trigger] items[i] is Some && listed_len(items.take(i + 1))
                        < listed_len(items) implies r.subrange(
                    listed_len(items.take(i + 1)) - 2,
                    listed_len(items.take(i + 1)) as int,
                ) == sep by {
                    if i < u.len() {
                        assert(items[i] == u[i]);
                    } else {
                        assert(items.take(i + 1) =~= items);
                    }
                }
            } else {
                assert(tu.push(s).drop_last() =~= tu);
                assert(r == ju + sep + s);
                assert(ju.len() + 2 == listed_len(u));
                assert forall|i: int|
                    0 <= i < items.len() && #[trigger] items[i] is Some implies r.subrange(
                    listed_len(items.take(i)) as int,
                    listed_len(items.take(i)) + items[i]->0.len() as int,
                ) == items[i]->0 by {
                    if i < u.len() {
                        assert(items[i] == u[i]);
                        lemma_listed_len_step(u, i);
                        lemma_listed_len_prefix(u, i + 1);
                        let a = listed_len(u.take(i)) as int;
                        let b = a + u[i]->0.len();
                        assert(b <= ju.len());
                        assert(r.subrange(a, b) =~= ju.subrange(a, b));
                    } else {
                        let a = listed_len(u) as int;
                        assert(r.subrange(a, a + s.len()) =~= s);
                    }
                }
                assert forall|i: int|
                    0 <= i < items.len() && #[trigger] items[i] is Some && listed_len(items.take(i + 1))
                        < listed_len(items) implies r.subrange(
                    listed_len(items.take(i + 1)) - 2,
                    listed_len(items.take(i + 1)) as int,
                ) == sep by {
                    if i < u.len() {
                        assert(items[i] == u[i]);
                        assert(items.take(i + 1) == u.take(i + 1));
                        lemma_listed_len_step(u, i);
                        lemma_listed_len_prefix(u, i + 1);
                        let l = listed_len(u.take(i + 1)) as int;
                        if l == listed_len(u) {
                            assert(r.subrange(l - 2, l) =~= sep);
                        } else {
                            assert(l + 2 <= listed_len(u));
                            assert(r.subrange(l - 2, l) =~= ju.subrange(l - 2, l));
                        }
                    } else {
                        assert(items.take(i + 1) =~= items);
                    }
                }
            }
        },
    }
}

/// The artist of an array value names every string element, in order, each
/// followed by ", " but the last: the `i`-th element's string stands at the
/// length its strings before take with their separators, and nothing else
/// is there.
pub proof fn law_artist_list(items: Seq<Option<Seq<char>>>)
    ensures
        ({
            let r = artist_of(Some(MetadataValueView::List(items)));
            &&& texts(items).len() == 0 ==> r.len() == 0
            &&& texts(items).len() > 0 ==> r.len() + 2 == listed_len(items)
            &&& forall|i: int|
                0 <= i < items.len() && #[trigger] items[i] is Some ==> r.subrange(
                    listed_len(items.take(i)) as int,
                    listed_len(items.take(i)) + items[i]->0.len() as int,
                ) == items[i]->0
            &&& forall|i: int|
                0 <= i < items.len() && #[trigger] items[i] is Some && listed_len(items.take(i + 1))
                    < listed_len(items) ==> r.subrange(
                    listed_len(items.take(i + 1)) - 2,
                    listed_len(items.take(i + 1)) as int,
                ) == seq![',', ' ']
        }),
{
    reveal_strlit(", ");
    assert(", "@ =~= seq![',', ' ']);
    lemma_joined_list(items);
}

} // verus!
