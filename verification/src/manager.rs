//! The media-source manager's decisions: which sources to keep after a bus
//! scan, which source is active, and where a command goes.
use vstd::prelude::*;
use crate::error::AppError;
use crate::message::CommandKind;
use crate::mpris::{PlaybackState, TrackInfo};
use crate::mpris::adapter::{is_mpris_name, mpris_prefix, player_name, player_name_spec};
use crate::player::{LOCAL_PLAYER_ID, local_player_id, opt_nat};
use crate::text::{copy_string, to_owned_string};

verus! {

broadcast use vstd::string::group_string_axioms;

/// The characters of each string.
pub open spec fn strings_view(s: Seq<String>) -> Seq<Seq<char>> {
    s.map_values(|x: String| x@)
}

/// Whether a text starts with the MPRIS prefix.
pub open spec fn is_mpris(n: Seq<char>) -> bool {
    mpris_prefix().len() <= n.len() && n.take(mpris_prefix().len() as int) == mpris_prefix()
}

/// The test that keeps MPRIS bus names.
pub open spec fn mpris_filter() -> spec_fn(Seq<char>) -> bool {
    |n: Seq<char>| is_mpris(n)
}

/// The bus names of MPRIS players among all names on the bus, in order.
pub fn filter_mpris_names(names: &Vec<String>) -> (r: Vec<String>)
    ensures
        strings_view(r@) == strings_view(names@).filter(mpris_filter()),
{
    let ghost all = strings_view(names@);
    let mut out: Vec<String> = Vec::new();
    let mut i: usize = 0;
    while i < names.len()
        invariant
            i <= names.len(),
            all == strings_view(names@),
            strings_view(out@) == all.take(i as int).filter(mpris_filter()),
        decreases names.len() - i,
    {
        proof {
            all.lemma_take_succ_push(i as int);
            all.take(i as int).lemma_filter_push(all[i as int], mpris_filter());
        }
        if is_mpris_name(names[i].as_str()) {
            let n = copy_string(&names[i]);
            let ghost before = out@;
            out.push(n);
            proof {
                assert(strings_view(out@) =~= strings_view(before).push(n@));
            }
        }
        i += 1;
    }
    proof {
        assert(all.take(all.len() as int) =~= all);
    }
    out
}

/// Some bus name in `names` belongs to the player with id `id`.
pub open spec fn is_live(names: Seq<Seq<char>>, id: Seq<char>) -> bool {
    exists|j: int| 0 <= j < names.len() && player_name_spec(#[trigger] names[j]) == id
}

/// After a bus scan, a known source stays if it is the local player or a
/// player that is still on the bus.
pub open spec fn keeps_source(names: Seq<Seq<char>>, id: Seq<char>) -> bool {
    id == local_player_id() || is_live(names, id)
}

/// The bus name `name` needs a new source: no source that stays has its id.
pub open spec fn needs_source(existing: Seq<Seq<char>>, names: Seq<Seq<char>>, name: Seq<char>) -> bool {
    !(exists|i: int|
        0 <= i < existing.len() && keeps_source(names, #[trigger] existing[i]) && existing[i]
            == player_name_spec(name))
}

/// After a bus scan the local player always stays; any other source stays
/// exactly when its player is still on the bus.
pub proof fn law_scan_keeps_sources(names: Seq<Seq<char>>, id: Seq<char>)
    ensures
        keeps_source(names, local_player_id()),
        id != local_player_id() ==> (keeps_source(names, id) <==> exists|j: int|
            0 <= j < names.len() && player_name_spec(#[trigger] names[j]) == id),
{
}

/// The ids of the sources after a bus scan that found the MPRIS bus names
/// `names`: the known ones (`existing`) that stay, in order, then one for
/// each name that needs a new source, in the order of the names (as
/// `plan_sources` decides it).
pub open spec fn ids_after_scan(existing: Seq<Seq<char>>, names: Seq<Seq<char>>) -> Seq<Seq<char>> {
    existing.filter(|id: Seq<char>| keeps_source(names, id)) + names.filter(
        |n: Seq<char>| needs_source(existing, names, n),
    ).map_values(|n: Seq<char>| player_name_spec(n))
}

/// The test for the id `id`.
pub open spec fn is_id(id: Seq<char>) -> spec_fn(Seq<char>) -> bool {
    |x: Seq<char>| x == id
}

/// How many of `ids` are `id`.
pub open spec fn count_id(ids: Seq<Seq<char>>, id: Seq<char>) -> nat {
    ids.filter(is_id(id)).len()
}

proof fn lemma_filter_within(s: Seq<Seq<char>>, keep: spec_fn(Seq<char>) -> bool, id: Seq<char>)
    requires
        keep(id),
    ensures
        s.filter(keep).filter(is_id(id)) == s.filter(is_id(id)),
    decreases s.len(),
{
    reveal(Seq::filter);
    if s.len() > 0 {
        lemma_filter_within(s.drop_last(), keep, id);
        let f = s.drop_last().filter(keep);
        if keep(s.last()) {
            assert(f.push(s.last()).drop_last() =~= f);
        }
    }
}

proof fn lemma_filter_none(s: Seq<Seq<char>>, id: Seq<char>)
    requires
        forall|i: int| 0 <= i < s.len() ==> s[i] != id,
    ensures
        s.filter(is_id(id)).len() == 0,
    decreases s.len(),
{
    reveal(Seq::filter);
    if s.len() > 0 {
        lemma_filter_none(s.drop_last(), id);
        assert(s[s.len() - 1] != id);
    }
}

/// A bus scan keeps the number of local-player sources, when no bus name
/// stands for a player with the local player's id: the local player always
/// stays and no new source takes its id. So with the local player
/// registered once, every scan leaves exactly one, and with none, none.
pub proof fn law_local_player_once(existing: Seq<Seq<char>>, names: Seq<Seq<char>>)
    requires
        forall|j: int| 0 <= j < names.len() ==> player_name_spec(#[trigger] names[j]) != local_player_id(),
    ensures
        count_id(ids_after_scan(existing, names), local_player_id()) == count_id(existing, local_player_id()),
{
    let local = local_player_id();
    let keep = |id: Seq<char>| keeps_source(names, id);
    let need = |n: Seq<char>| needs_source(existing, names, n);
    let is_local = is_id(local);
    let kept = existing.filter(keep);
    let needed = names.filter(need);
    let added = needed.map_values(|n: Seq<char>| player_name_spec(n));
    Seq::filter_distributes_over_add(kept, added, is_local);
    assert(ids_after_scan(existing, names) == kept + added);
    lemma_filter_within(existing, keep, local);
    assert forall|i: int| 0 <= i < added.len() implies added[i] != local by {
        assert(needed.contains(needed[i]));
        names.lemma_filter_contains_rev(need, needed[i]);
        let j = choose|j: int| 0 <= j < names.len() && names[j] == needed[i];
        assert(player_name_spec(names[j]) != local);
    }
    lemma_filter_none(added, local);
}

/// The outcome of a bus scan for the known sources.
pub struct SourcePlan {
    /// For each known source, whether it stays.
    pub keep: Vec<bool>,
    /// The positions in the scanned names of the players that need a new
    /// source, in increasing order.
    pub add: Vec<usize>,
}

fn contains_string(v: &Vec<String>, x: &String) -> (r: bool)
    ensures
        r == exists|k: int| 0 <= k < v@.len() && (#[trigger] v@[k])@ == x@,
{
    let mut i: usize = 0;
    while i < v.len()
        invariant
            i <= v.len(),
            forall|k: int| 0 <= k < i ==> (#[trigger] v@[k])@ != x@,
        decreases v.len() - i,
    {
        if v[i] == *x {
            return true;
        }
        i += 1;
    }
    false
}

/// Which known sources (by id) stay after a bus scan that found the MPRIS
/// bus names `names`, and which names need a new source.
pub fn plan_sources(existing: &Vec<String>, names: &Vec<String>) -> (p: SourcePlan)
    ensures
        p.keep@.len() == existing@.len(),
        forall|i: int| 0 <= i < existing@.len() ==> p.keep@[i] == keeps_source(strings_view(names@), #[trigger] existing@[i]@),
        forall|a: int, b: int| 0 <= a < b < p.add@.len() ==> #[trigger] p.add@[a] < #[trigger] p.add@[b],
        forall|a: int| 0 <= a < p.add@.len() ==> (#[trigger] p.add@[a]) < names@.len() && needs_source(
            strings_view(existing@),
            strings_view(names@),
            names@[p.add@[a] as int]@,
        ),
        forall|j: int| 0 <= j < names@.len() && needs_source(strings_view(existing@), strings_view(names@), #[trigger] names@[j]@)
            ==> p.add@.contains(j as usize),
{
    let ghost nv = strings_view(names@);
    let ghost ev = strings_view(existing@);
    let mut ids: Vec<String> = Vec::new();
    let mut j: usize = 0;
    while j < names.len()
        invariant
            j <= names.len(),
            ids@.len() == j,
            forall|q: int| 0 <= q < j ==> (#[trigger] ids@[q])@ == player_name_spec(names@[q]@),
        decreases names.len() - j,
    {
        ids.push(player_name(names[j].as_str()));
        j += 1;
    }
    let local = to_owned_string(LOCAL_PLAYER_ID);
    let mut keep: Vec<bool> = Vec::new();
    let mut i: usize = 0;
    while i < existing.len()
        invariant
            i <= existing.len(),
            keep@.len() == i,
            local@ == local_player_id(),
            nv == strings_view(names@),
            ids@.len() == names@.len(),
            forall|q: int| 0 <= q < ids@.len() ==> (#[trigger] ids@[q])@ == player_name_spec(names@[q]@),
            forall|q: int| 0 <= q < i ==> keep@[q] == keeps_source(nv, #[trigger] existing@[q]@),
        decreases existing.len() - i,
    {
        let live = contains_string(&ids, &existing[i]);
        proof {
            if live {
                let k = choose|k: int| 0 <= k < ids@.len() && (#[trigger] ids@[k])@ == existing@[i as int]@;
                assert(player_name_spec(nv[k]) == existing@[i as int]@);
            } else {
                assert forall|q: int| 0 <= q < nv.len() implies player_name_spec(#[trigger] nv[q]) != existing@[i as int]@ by {
                    assert(ids@[q]@ == player_name_spec(nv[q]));
                }
            }
        }
        let k = existing[i] == local || live;
        keep.push(k);
        i += 1;
    }
    let mut add: Vec<usize> = Vec::new();
    let mut j: usize = 0;
    while j < names.len()
        invariant
            j <= names.len(),
            nv == strings_view(names@),
            ev == strings_view(existing@),
            keep@.len() == existing@.len(),
            forall|q: int| 0 <= q < existing@.len() ==> keep@[q] == keeps_source(nv, #[trigger] existing@[q]@),
            ids@.len() == names@.len(),
            forall|q: int| 0 <= q < ids@.len() ==> (#[trigger] ids@[q])@ == player_name_spec(names@[q]@),
            forall|a: int, b: int| 0 <= a < b < add@.len() ==> #[trigger] add@[a] < #[trigger] add@[b],
            forall|a: int| 0 <= a < add@.len() ==> (#[trigger] add@[a]) < j && needs_source(ev, nv, names@[add@[a] as int]@),
            forall|q: int| 0 <= q < j && needs_source(ev, nv, #[trigger] names@[q]@) ==> add@.contains(q as usize),
        decreases names.len() - j,
    {
        let mut found = false;
        let mut i: usize = 0;
        while i < existing.len()
            invariant
                i <= existing.len(),
                j < ids@.len(),
                keep@.len() == existing@.len(),
                !found ==> forall|q: int| 0 <= q < i ==> !(keep@[q] && (#[trigger] existing@[q])@ == ids@[j as int]@),
                found ==> exists|q: int| 0 <= q < existing@.len() && keep@[q] && (#[trigger] existing@[q])@ == ids@[j as int]@,
            decreases existing.len() - i,
        {
            if keep[i] && existing[i] == ids[j] {
                found = true;
            }
            i += 1;
        }
        proof {
            let id = player_name_spec(names@[j as int]@);
            assert(ids@[j as int]@ == id);
            if found {
                let q = choose|q: int| 0 <= q < existing@.len() && keep@[q] && (#[trigger] existing@[q])@ == ids@[j as int]@;
                assert(ev[q] == existing@[q]@);
                assert(!needs_source(ev, nv, names@[j as int]@));
            } else {
                assert forall|q: int| 0 <= q < ev.len() implies !(keeps_source(nv, #[trigger] ev[q]) && ev[q] == id) by {
                    assert(ev[q] == existing@[q]@);
                }
            }
        }
        if !found {
            let ghost before = add@;
            add.push(j);
            proof {
                assert(add@[add@.len() - 1] == j);
                assert forall|q: int| 0 <= q < j + 1 && needs_source(ev, nv, #[trigger] names@[q]@) implies add@.contains(q as usize) by {
                    if q < j {
                        assert(before.contains(q as usize));
                        let w = choose|w: int| 0 <= w < before.len() && before[w] == q as usize;
                        assert(add@[w] == q as usize);
                    }
                }
            }
        } else {
            proof {
                assert forall|q: int| 0 <= q < j + 1 && needs_source(ev, nv, #[trigger] names@[q]@) implies add@.contains(q as usize) by {
                    if q == j {
                        assert(!needs_source(ev, nv, names@[q]@));
                    }
                }
            }
        }
        j += 1;
    }
    SourcePlan { keep, add }
}

/// Index of the first `s` in `states`.
pub open spec fn first_index(states: Seq<PlaybackState>, s: PlaybackState) -> Option<nat>
    decreases states.len(),
{
    if states.len() == 0 {
        None
    } else {
        match first_index(states.drop_last(), s) {
            Some(i) => Some(i),
            None => if states.last() == s {
                Some((states.len() - 1) as nat)
            } else {
                None
            },
        }
    }
}

/// The source to make active among sources in states `states`: the first
/// playing one, else the first paused one, else none.
pub open spec fn preferred(states: Seq<PlaybackState>) -> Option<nat> {
    match first_index(states, PlaybackState::Playing) {
        Some(i) => Some(i),
        None => first_index(states, PlaybackState::Paused),
    }
}

proof fn lemma_first_index(states: Seq<PlaybackState>, s: PlaybackState)
    ensures
        first_index(states, s) matches Some(i) ==> i < states.len() && states[i as int] == s
            && forall|j: int| 0 <= j < i ==> states[j] != s,
        first_index(states, s) is None ==> forall|j: int| 0 <= j < states.len() ==> states[j] != s,
    decreases states.len(),
{
    if states.len() > 0 {
        let u = states.drop_last();
        lemma_first_index(u, s);
        assert forall|j: int| 0 <= j < u.len() implies states[j] == u[j] by {}
    }
}

proof fn lemma_first_index_prefix(states: Seq<PlaybackState>, s: PlaybackState, n: int)
    requires
        0 <= n <= states.len(),
        first_index(states.take(n), s) is Some,
    ensures
        first_index(states, s) == first_index(states.take(n), s),
    decreases states.len() - n,
{
    if n < states.len() {
        assert(states.take(n + 1).drop_last() =~= states.take(n));
        lemma_first_index_prefix(states, s, n + 1);
    } else {
        assert(states.take(n) =~= states);
    }
}

/// The active source by state: a playing source wins, the first one in
/// order; else the first paused one; with none playing or paused, none.
pub proof fn law_selection_priority(states: Seq<PlaybackState>)
    ensures
        preferred(states) matches Some(i) ==> i < states.len() && (states[i as int]
            == PlaybackState::Playing || states[i as int] == PlaybackState::Paused),
        (exists|j: int| 0 <= j < states.len() && states[j] == PlaybackState::Playing)
            ==> (preferred(states) matches Some(i) && states[i as int] == PlaybackState::Playing
            && forall|j: int| 0 <= j < i ==> states[j] != PlaybackState::Playing),
        (forall|j: int| 0 <= j < states.len() ==> states[j] == PlaybackState::Stopped)
            ==> preferred(states) is None,
{
    lemma_first_index(states, PlaybackState::Playing);
    lemma_first_index(states, PlaybackState::Paused);
}

/// Once a playing source has been seen, the sources after it do not change
/// the choice: looking no further gives the same active source.
pub proof fn law_selection_stops_at_playing(states: Seq<PlaybackState>, n: int)
    requires
        0 <= n <= states.len(),
        first_index(states.take(n), PlaybackState::Playing) is Some,
    ensures
        preferred(states.take(n)) == preferred(states),
{
    lemma_first_index_prefix(states, PlaybackState::Playing, n);
}

/// Looks through the sources' states in order, and stops being needed once
/// a playing source is seen.
pub struct ActiveSelector {
    playing: Option<usize>,
    paused: Option<usize>,
    seen: usize,
    observed: Ghost<Seq<PlaybackState>>,
}


impl View for ActiveSelector {
    type V = Seq<PlaybackState>;

    /// The states seen so far, in order.
    closed spec fn view(&self) -> Seq<PlaybackState> {
        self.observed@
    }
}

impl ActiveSelector {
    #[verifier::type_invariant]
    spec fn inv(self) -> bool {
        &&& self.seen == self.observed@.len()
        &&& opt_nat(self.playing) == first_index(self.observed@, PlaybackState::Playing)
        &&& opt_nat(self.paused) == first_index(self.observed@, PlaybackState::Paused)
    }

    /// A selector that has seen no source.
    pub fn new() -> (s: Self)
        ensures
            s@ == Seq::<PlaybackState>::empty(),
    {
        ActiveSelector { playing: None, paused: None, seen: 0, observed: Ghost(Seq::empty()) }
    }

    /// Number of sources seen.
    pub fn seen(&self) -> (n: usize)
        ensures
            n == self@.len(),
    {
        proof {
            use_type_invariant(self);
        }
        self.seen
    }

    /// Sees the next source, in state `state`.
    pub fn observe(&mut self, state: PlaybackState)
        requires
            old(self)@.len() < usize::MAX,
        ensures
            final(self)@ == old(self)@.push(state),
    {
        proof {
            use_type_invariant(&*self);
        }
        let ghost obs = self.observed@.push(state);
        proof {
            assert(obs.drop_last() =~= self.observed@);
        }
        let playing = match self.playing {
            Some(i) => Some(i),
            None => if state == PlaybackState::Playing {
                Some(self.seen)
            } else {
                None
            },
        };
        let paused = match self.paused {
            Some(i) => Some(i),
            None => if state == PlaybackState::Paused {
                Some(self.seen)
            } else {
                None
            },
        };
        *self = ActiveSelector { playing, paused, seen: self.seen + 1, observed: Ghost(obs) };
    }

    /// Whether a playing source has been seen (later ones need no look).
    pub fn decided(&self) -> (r: bool)
        ensures
            r == (first_index(self@, PlaybackState::Playing) is Some),
    {
        proof {
            use_type_invariant(self);
        }
        self.playing.is_some()
    }

    /// The source to make active among those seen.
    pub fn choice(&self) -> (r: Option<usize>)
        ensures
            opt_nat(r) == preferred(self@),
    {
        proof {
            use_type_invariant(self);
        }
        match self.playing {
            Some(i) => Some(i),
            None => self.paused,
        }
    }
}

/// What becomes of the current track.
pub enum TrackUpdate {
    /// It stays as it is.
    Keep,
    /// It becomes this track.
    Replace(TrackInfo),
    /// There is none.
    Clear,
}

/// What a bus scan publishes once it chose the source at `choice` (if any)
/// among the sources whose states and tracks it read (`states`, `tracks`):
/// the chosen source's state and, if it reported one, its track (else the
/// current track stays); with no source chosen, stopped and no track.
pub fn scan_outcome(choice: Option<usize>, states: &Vec<PlaybackState>, tracks: &Vec<Option<TrackInfo>>) -> (r: (PlaybackState, TrackUpdate))
    ensures
        choice is None ==> r.0 == PlaybackState::Stopped && r.1 is Clear,
        choice matches Some(i) ==> r.0 == if i < states@.len() {
            states@[i as int]
        } else {
            PlaybackState::Stopped
        },
        choice matches Some(i) ==> if i < tracks@.len() && tracks@[i as int] is Some {
            r.1 matches TrackUpdate::Replace(t) && t@ == tracks@[i as int]->0@
        } else {
            r.1 is Keep
        },
{
    match choice {
        None => (PlaybackState::Stopped, TrackUpdate::Clear),
        Some(i) => {
            let state = if i < states.len() {
                states[i]
            } else {
                PlaybackState::Stopped
            };
            let update = if i < tracks.len() {
                match &tracks[i] {
                    Some(t) => TrackUpdate::Replace(t.clone()),
                    None => TrackUpdate::Keep,
                }
            } else {
                TrackUpdate::Keep
            };
            (state, update)
        },
    }
}

/// Index of the first `id` in `ids`.
pub open spec fn first_id(ids: Seq<Seq<char>>, id: Seq<char>) -> Option<nat>
    decreases ids.len(),
{
    if ids.len() == 0 {
        None
    } else {
        match first_id(ids.drop_last(), id) {
            Some(i) => Some(i),
            None => if ids.last() == id {
                Some((ids.len() - 1) as nat)
            } else {
                None
            },
        }
    }
}

/// The active source when none is playing or paused: the source that just
/// reported (`priority`), else the local player, else the first source.
pub open spec fn fallback_spec(ids: Seq<Seq<char>>, priority: Option<Seq<char>>) -> Option<nat> {
    let from_priority = match priority {
        Some(p) => first_id(ids, p),
        None => None,
    };
    match from_priority {
        Some(i) => Some(i),
        None => match first_id(ids, local_player_id()) {
            Some(i) => Some(i),
            None => if ids.len() > 0 {
                Some(0nat)
            } else {
                None
            },
        },
    }
}

fn find_id(ids: &Vec<String>, id: &str) -> (r: Option<usize>)
    ensures
        opt_nat(r) == first_id(strings_view(ids@), id@),
{
    let key = to_owned_string(id);
    let mut i: usize = 0;
    while i < ids.len()
        invariant
            i <= ids.len(),
            key@ == id@,
            first_id(strings_view(ids@).take(i as int), id@) is None,
        decreases ids.len() - i,
    {
        let ghost v = strings_view(ids@);
        proof {
            assert(v.take(i + 1).drop_last() =~= v.take(i as int));
        }
        if ids[i] == key {
            proof {
                lemma_first_id_prefix(v, id@, i + 1);
            }
            return Some(i);
        }
        i += 1;
    }
    proof {
        assert(strings_view(ids@).take(ids@.len() as int) =~= strings_view(ids@));
    }
    None
}

proof fn lemma_first_id_prefix(v: Seq<Seq<char>>, id: Seq<char>, n: int)
    requires
        0 <= n <= v.len(),
        first_id(v.take(n), id) is Some,
    ensures
        first_id(v, id) == first_id(v.take(n), id),
    decreases v.len() - n,
{
    if n < v.len() {
        assert(v.take(n + 1).drop_last() =~= v.take(n));
        lemma_first_id_prefix(v, id, n + 1);
    } else {
        assert(v.take(n) =~= v);
    }
}

/// The source to make active: `choice` (the preferred one among the sources'
/// states) if any, else the fallback.
pub open spec fn reselect_spec(ids: Seq<Seq<char>>, choice: Option<nat>, priority: Option<Seq<char>>) -> Option<nat> {
    match choice {
        Some(i) => Some(i),
        None => fallback_spec(ids, priority),
    }
}

/// The id of the source at `idx`, if any.
pub open spec fn id_at(ids: Seq<Seq<char>>, idx: Option<nat>) -> Option<Seq<char>> {
    match idx {
        Some(i) => Some(ids[i as int]),
        None => None,
    }
}

/// The characters of an optional string slice.
pub open spec fn opt_str_view(o: Option<&str>) -> Option<Seq<char>> {
    match o {
        Some(s) => Some(s@),
        None => None,
    }
}

/// Re-evaluates the active source among the sources with ids `ids`, given
/// the preferred one by state (`choice`), the source that just reported
/// (`priority`) and the id of the current active source (`current`).
/// `None`: the active source stays; `Some(x)`: it becomes `x`.
pub fn reselect_target(ids: &Vec<String>, choice: Option<usize>, priority: Option<&str>, current: Option<&str>) -> (r: Option<Option<usize>>)
    requires
        choice matches Some(i) ==> i < ids@.len(),
    ensures
        ({
            let target = reselect_spec(strings_view(ids@), opt_nat(choice), opt_str_view(priority));
            &&& (target matches Some(i) ==> i < ids@.len())
            &&& r is None <==> id_at(strings_view(ids@), target) == opt_str_view(current)
            &&& r matches Some(x) ==> opt_nat(x) == target
        }),
{
    let target = match choice {
        Some(i) => Some(i),
        None => {
            let from_priority = match priority {
                Some(p) => find_id(ids, p),
                None => None,
            };
            match from_priority {
                Some(i) => Some(i),
                None => match find_id(ids, LOCAL_PLAYER_ID) {
                    Some(i) => Some(i),
                    None => if ids.len() > 0 {
                        Some(0)
                    } else {
                        None
                    },
                },
            }
        },
    };
    proof {
        lemma_first_id_bound(strings_view(ids@), local_player_id());
        match priority {
            Some(p) => lemma_first_id_bound(strings_view(ids@), p@),
            None => {},
        }
    }
    let same = match (target, current) {
        (Some(i), Some(c)) => crate::text::str_eq(ids[i].as_str(), c),
        (None, None) => true,
        _ => false,
    };
    if same {
        None
    } else {
        Some(target)
    }
}

proof fn lemma_first_id_bound(v: Seq<Seq<char>>, id: Seq<char>)
    ensures
        first_id(v, id) matches Some(i) ==> i < v.len() && v[i as int] == id,
    decreases v.len(),
{
    if v.len() > 0 {
        lemma_first_id_bound(v.drop_last(), id);
    }
}

/// When a source reports a new state, it becomes active if no source is, or
/// if it already is.
pub fn adopts_source(active_id: Option<&str>, src_id: &str) -> (r: bool)
    ensures
        r == match active_id {
            None => true,
            Some(a) => a@ == src_id@,
        },
{
    match active_id {
        None => true,
        Some(a) => crate::text::str_eq(a, src_id),
    }
}

/// What a source reports, as far as the manager reacts to it.
#[derive(PartialEq, Eq, Structural, Clone, Copy, Debug)]
pub enum SourceEvent {
    /// The source's playback state changed.
    StateChanged(PlaybackState),
    /// The source's track changed.
    TrackChanged,
    /// Anything else (position, volume, statistics, source list).
    Other,
}

/// How the manager reacts to a source's event.
#[derive(PartialEq, Eq, Structural, Clone, Copy, Debug)]
pub struct SourceReaction {
    /// The state to cache, if any.
    pub cache_state: Option<PlaybackState>,
    /// Whether the event's track is cached.
    pub cache_track: bool,
    /// Whether the source becomes active before the active source is
    /// re-evaluated.
    pub adopt: bool,
    /// Whether the active source is re-evaluated (with the source first in
    /// line).
    pub reselect: bool,
}

/// The manager's reaction to `event` from the source with id `src`, the
/// active source's id being `active` (see [`source_reaction`]).
pub open spec fn reaction_spec(event: SourceEvent, on_bus: bool, active: Option<Seq<char>>, src: Seq<char>) -> SourceReaction {
    match event {
        SourceEvent::StateChanged(s) => SourceReaction {
            cache_state: Some(s),
            cache_track: false,
            adopt: on_bus && match active {
                None => true,
                Some(a) => a == src,
            },
            reselect: true,
        },
        SourceEvent::TrackChanged => SourceReaction {
            cache_state: None,
            cache_track: true,
            adopt: false,
            reselect: true,
        },
        SourceEvent::Other => SourceReaction {
            cache_state: None,
            cache_track: false,
            adopt: false,
            reselect: false,
        },
    }
}

/// The manager's reaction to `event` from the source with id `src_id`, the
/// active source's id being `active_id`: a new state is cached and, for a
/// player on the bus (`on_bus`), makes the source active when no source is
/// or when it already is; a new track is cached; either is followed by a
/// re-evaluation of the active source. Other events change nothing.
pub fn source_reaction(event: SourceEvent, on_bus: bool, active_id: Option<&str>, src_id: &str) -> (r: SourceReaction)
    ensures
        r == reaction_spec(event, on_bus, opt_str_view(active_id), src_id@),
        event == SourceEvent::TrackChanged ==> r.cache_track && r.reselect && r.cache_state is None && !r.adopt,
        event matches SourceEvent::StateChanged(s) ==> r.cache_state == Some(s) && r.reselect && !r.cache_track,
        event == SourceEvent::Other ==> !r.cache_track && !r.reselect && r.cache_state is None && !r.adopt,
        r.adopt <==> (on_bus && event is StateChanged && match active_id {
            None => true,
            Some(a) => a@ == src_id@,
        }),
{
    match event {
        SourceEvent::StateChanged(s) => {
            let adopt = on_bus && adopts_source(active_id, src_id);
            SourceReaction { cache_state: Some(s), cache_track: false, adopt, reselect: true }
        },
        SourceEvent::TrackChanged => SourceReaction {
            cache_state: None,
            cache_track: true,
            adopt: false,
            reselect: true,
        },
        SourceEvent::Other => SourceReaction {
            cache_state: None,
            cache_track: false,
            adopt: false,
            reselect: false,
        },
    }
}

/// How the manager reacts to a source's event, whichever source it is: a
/// new track is always cached and the active source re-evaluated; a new
/// state is always cached and the active source re-evaluated; a source is
/// made active only for a state change of a player on the bus, when no
/// source is active or it already is; other events change nothing.
pub proof fn law_source_reaction(event: SourceEvent, on_bus: bool, active: Option<Seq<char>>, src: Seq<char>)
    ensures
        ({
            let r = reaction_spec(event, on_bus, active, src);
            &&& event == SourceEvent::TrackChanged ==> r.cache_track && r.reselect && r.cache_state is None
                && !r.adopt
            &&& event matches SourceEvent::StateChanged(s) ==> r.cache_state == Some(s) && r.reselect
                && !r.cache_track
            &&& event == SourceEvent::Other ==> !r.cache_track && !r.reselect && r.cache_state is None
                && !r.adopt
            &&& r.adopt <==> (on_bus && event is StateChanged && (active is None || active == Some(src)))
        }),
{
}

/// One step of the manager's forwarder of a source's events.
#[derive(PartialEq, Eq, Structural, Clone, Copy, Debug)]
pub enum ForwardStep {
    /// Cache this playback state.
    CacheState(PlaybackState),
    /// Cache the event's track.
    CacheTrack,
    /// Make the source active.
    Adopt,
    /// Re-evaluate the active source, the source first in line.
    Reselect,
    /// Pass the event on to the manager's listeners.
    Forward(SourceEvent),
}

/// The steps for one event, in the order they are taken: the reaction
/// (cache, adopt, re-evaluate) first, the event passed on last.
pub open spec fn reaction_steps(event: SourceEvent, on_bus: bool, active: Option<Seq<char>>, src: Seq<char>) -> Seq<ForwardStep> {
    let r = reaction_spec(event, on_bus, active, src);
    (match r.cache_state {
        Some(s) => seq![ForwardStep::CacheState(s)],
        None => Seq::empty(),
    }) + (if r.cache_track {
        seq![ForwardStep::CacheTrack]
    } else {
        Seq::empty()
    }) + (if r.adopt {
        seq![ForwardStep::Adopt]
    } else {
        Seq::empty()
    }) + (if r.reselect {
        seq![ForwardStep::Reselect]
    } else {
        Seq::empty()
    }) + seq![ForwardStep::Forward(event)]
}

/// The steps the forwarder of the source with id `src_id` takes for `event`,
/// the active source's id being `active_id`.
pub fn forward_steps(event: SourceEvent, on_bus: bool, active_id: Option<&str>, src_id: &str) -> (r: Vec<ForwardStep>)
    ensures
        r@ == reaction_steps(event, on_bus, opt_str_view(active_id), src_id@),
{
    let reaction = source_reaction(event, on_bus, active_id, src_id);
    let mut steps: Vec<ForwardStep> = Vec::new();
    if let Some(s) = reaction.cache_state {
        steps.push(ForwardStep::CacheState(s));
    }
    if reaction.cache_track {
        steps.push(ForwardStep::CacheTrack);
    }
    if reaction.adopt {
        steps.push(ForwardStep::Adopt);
    }
    if reaction.reselect {
        steps.push(ForwardStep::Reselect);
    }
    steps.push(ForwardStep::Forward(event));
    proof {
        assert(steps@ =~= reaction_steps(event, on_bus, opt_str_view(active_id), src_id@));
    }
    steps
}

/// An event of a source, with the id of the active source when it arrived.
pub struct ArrivedEvent {
    /// The event.
    pub event: SourceEvent,
    /// The active source's id then.
    pub active: Option<Seq<char>>,
}

/// The steps the forwarder of the source with id `src` takes for the events
/// `events`, one event after the other.
pub open spec fn stream_steps(events: Seq<ArrivedEvent>, on_bus: bool, src: Seq<char>) -> Seq<ForwardStep>
    decreases events.len(),
{
    if events.len() == 0 {
        Seq::empty()
    } else {
        stream_steps(events.drop_last(), on_bus, src) + reaction_steps(
            events.last().event,
            on_bus,
            events.last().active,
            src,
        )
    }
}

/// The steps that pass an event on.
pub open spec fn is_forward() -> spec_fn(ForwardStep) -> bool {
    |s: ForwardStep| s is Forward
}

proof fn lemma_reaction_forwards_last(event: SourceEvent, on_bus: bool, active: Option<Seq<char>>, src: Seq<char>)
    ensures
        reaction_steps(event, on_bus, active, src).last() == ForwardStep::Forward(event),
        reaction_steps(event, on_bus, active, src).drop_last().filter(is_forward()) == Seq::<ForwardStep>::empty(),
        reaction_steps(event, on_bus, active, src).filter(is_forward()) == seq![ForwardStep::Forward(event)],
{
    reveal(Seq::filter);
    let steps = reaction_steps(event, on_bus, active, src);
    let pre = steps.drop_last();
    assert(steps.last() == ForwardStep::Forward(event));
    assert forall|i: int| 0 <= i < pre.len() implies !(#[trigger] pre[i] is Forward) by {
        assert(pre[i] == steps[i]);
    }
    lemma_none_forward(pre);
    assert(pre.push(ForwardStep::Forward(event)) =~= steps);
    assert(pre.push(ForwardStep::Forward(event)).drop_last() =~= pre);
    assert(Seq::<ForwardStep>::empty().push(ForwardStep::Forward(event)) =~= seq![ForwardStep::Forward(event)]);
}

proof fn lemma_none_forward(s: Seq<ForwardStep>)
    requires
        forall|i: int| 0 <= i < s.len() ==> !(#[trigger] s[i] is Forward),
    ensures
        s.filter(is_forward()) == Seq::<ForwardStep>::empty(),
    decreases s.len(),
{
    reveal(Seq::filter);
    if s.len() > 0 {
        lemma_none_forward(s.drop_last());
        assert(!(s[s.len() - 1] is Forward));
    }
}

/// A source's events are passed on to the manager's listeners in the order
/// the source sent them, each once; and each is passed on only after the
/// manager has reacted to it (cached its state or track, adopted the source,
/// re-evaluated the active source).
pub proof fn law_events_forwarded_in_order(events: Seq<ArrivedEvent>, on_bus: bool, src: Seq<char>)
    ensures
        stream_steps(events, on_bus, src).filter(is_forward()) == events.map_values(
            |e: ArrivedEvent| ForwardStep::Forward(e.event),
        ),
        forall|i: int|
            0 <= i < events.len() ==> ({
                let steps = reaction_steps(#[trigger] events[i].event, on_bus, events[i].active, src);
                &&& steps.last() == ForwardStep::Forward(events[i].event)
                &&& steps.drop_last().filter(is_forward()) == Seq::<ForwardStep>::empty()
            }),
    decreases events.len(),
{
    assert forall|i: int| 0 <= i < events.len() implies ({
        let steps = reaction_steps(#[trigger] events[i].event, on_bus, events[i].active, src);
        &&& steps.last() == ForwardStep::Forward(events[i].event)
        &&& steps.drop_last().filter(is_forward()) == Seq::<ForwardStep>::empty()
    }) by {
        lemma_reaction_forwards_last(events[i].event, on_bus, events[i].active, src);
    }
    if events.len() > 0 {
        let u = events.drop_last();
        let e = events.last();
        law_events_forwarded_in_order(u, on_bus, src);
        lemma_reaction_forwards_last(e.event, on_bus, e.active, src);
        Seq::filter_distributes_over_add(
            stream_steps(u, on_bus, src),
            reaction_steps(e.event, on_bus, e.active, src),
            is_forward(),
        );
        assert(events.map_values(|a: ArrivedEvent| ForwardStep::Forward(a.event)) =~= u.map_values(
            |a: ArrivedEvent| ForwardStep::Forward(a.event),
        ) + seq![ForwardStep::Forward(e.event)]);
    } else {
        reveal(Seq::filter);
        assert(events.map_values(|a: ArrivedEvent| ForwardStep::Forward(a.event)) =~= Seq::<ForwardStep>::empty());
    }
}

/// Where a command goes.
#[derive(PartialEq, Eq, Structural, Clone, Copy, Debug)]
pub enum RouteTarget {
    /// A scan of the music folder.
    ScanMusic,
    /// The local player.
    LocalPlayer,
    /// The statistics store (when there is no local player).
    Store,
    /// The active media source.
    ActiveSource,
}

/// Where a command of kind `kind` goes, with or without a local player and
/// an active source; the error when it cannot go.
pub fn route_target(kind: CommandKind, has_player: bool, has_active: bool) -> (r: Result<RouteTarget, AppError>)
    ensures
        kind == CommandKind::ScanMusic ==> (r matches Ok(t) && t == RouteTarget::ScanMusic),
        kind == CommandKind::PlayTrack && has_player ==> (r matches Ok(t) && t == RouteTarget::LocalPlayer),
        kind == CommandKind::PlayTrack && !has_player ==> (r matches Err(AppError::Mpris(m)) && m@ == "Local player not available"@),
        kind == CommandKind::ToggleFavorite && has_player ==> (r matches Ok(t) && t == RouteTarget::LocalPlayer),
        kind == CommandKind::ToggleFavorite && !has_player ==> (r matches Ok(t) && t == RouteTarget::Store),
        kind.is_media_control() && has_active ==> (r matches Ok(t) && t == RouteTarget::ActiveSource),
        kind.is_media_control() && !has_active ==> (r matches Err(AppError::NoActiveSource)),
{
    match kind {
        CommandKind::ScanMusic => Ok(RouteTarget::ScanMusic),
        CommandKind::PlayTrack => if has_player {
            Ok(RouteTarget::LocalPlayer)
        } else {
            Err(AppError::Mpris(to_owned_string("Local player not available")))
        },
        CommandKind::ToggleFavorite => if has_player {
            Ok(RouteTarget::LocalPlayer)
        } else {
            Ok(RouteTarget::Store)
        },
        _ => if has_active {
            Ok(RouteTarget::ActiveSource)
        } else {
            Err(AppError::NoActiveSource)
        },
    }
}

} // verus!
