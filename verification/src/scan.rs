//! The music-folder scan: which directory entries are music files, what a
//! new track's name and album are, and the walk's counts.
use vstd::prelude::*;
use crate::music_db::TrackStat;
use crate::pattern::{ascii_fold, ascii_fold_exec};
use crate::text::{chars_of, string_of_range, to_owned_string};

verus! {

broadcast use vstd::string::group_string_axioms;

/// Index of the first `/` in `s`, or its length if it has none.
pub open spec fn seg_break(s: Seq<char>) -> nat
    decreases s.len(),
{
    if s.len() == 0 {
        0
    } else if s[0] == '/' {
        0
    } else {
        1 + seg_break(s.drop_first())
    }
}

/// The components of a Unix path that name something: the parts between
/// `/`, without empty parts and `.` (as `Path::components` gives them, but
/// for the root and a leading `.`).
pub open spec fn components(s: Seq<char>) -> Seq<Seq<char>>
    decreases s.len(),
{
    if s.len() == 0 {
        Seq::empty()
    } else {
        let k = seg_break(s);
        let seg = s.take(k as int);
        let rest = if k < s.len() {
            components(s.skip(k + 1int))
        } else {
            Seq::empty()
        };
        if seg.len() == 0 || seg == seq!['.'] {
            rest
        } else {
            seq![seg] + rest
        }
    }
}

/// The parent-directory component `..`.
pub open spec fn dotdot() -> Seq<char> {
    seq!['.', '.']
}

/// `Path::file_name`: the last component, unless it is `..`.
pub open spec fn file_name(p: Seq<char>) -> Option<Seq<char>> {
    let c = components(p);
    if c.len() == 0 || c.last() == seq!['.', '.'] {
        None
    } else {
        Some(c.last())
    }
}

/// `Path::parent` followed by `Path::file_name`: the component before the
/// last, unless it is `..`.
pub open spec fn parent_name(p: Seq<char>) -> Option<Seq<char>> {
    let c = components(p);
    if c.len() < 2 || c[c.len() - 2] == seq!['.', '.'] {
        None
    } else {
        Some(c[c.len() - 2])
    }
}

/// Index of the last `.` in `s`.
pub open spec fn last_dot(s: Seq<char>) -> Option<nat>
    decreases s.len(),
{
    if s.len() == 0 {
        None
    } else if s.last() == '.' {
        Some((s.len() - 1) as nat)
    } else {
        last_dot(s.drop_last())
    }
}

/// `Path::file_stem` of a file name: the part before the last `.`; the whole
/// name if it has no `.` other than a leading one.
pub open spec fn file_stem(name: Seq<char>) -> Seq<char> {
    if name == seq!['.', '.'] {
        name
    } else {
        match last_dot(name) {
            Some(i) if i > 0 => name.take(i as int),
            _ => name,
        }
    }
}

/// `Path::extension` of a file name: the part after the last `.`, if that
/// `.` is not its first character.
pub open spec fn extension(name: Seq<char>) -> Option<Seq<char>> {
    if name == seq!['.', '.'] {
        None
    } else {
        match last_dot(name) {
            Some(i) if i > 0 => Some(name.skip(i + 1int)),
            _ => None,
        }
    }
}

/// Equal but for the case of ASCII letters.
pub open spec fn eq_ignore_ascii_case(a: Seq<char>, b: Seq<char>) -> bool {
    a.len() == b.len() && forall|i: int| 0 <= i < a.len() ==> ascii_fold(#[trigger] a[i]) == ascii_fold(b[i])
}

/// The file extensions of music files.
pub open spec fn music_extensions() -> Seq<Seq<char>> {
    seq!["mp3"@, "flac"@, "ogg"@, "wav"@, "m4a"@, "opus"@, "wma"@]
}

/// A file name is that of a music file: its extension is one of
/// [`music_extensions`], whatever the case of its letters.
pub open spec fn is_music_file_name(name: Seq<char>) -> bool {
    match extension(name) {
        Some(e) => exists|k: int| 0 <= k < music_extensions().len() && eq_ignore_ascii_case(e, #[trigger] music_extensions()[k]),
        None => false,
    }
}

/// A hidden entry: its name starts with `.`.
pub open spec fn is_hidden(name: Seq<char>) -> bool {
    name.len() > 0 && name[0] == '.'
}

fn eq_ignore_ascii_case_range(v: &Vec<char>, lo: usize, hi: usize, w: &Vec<char>) -> (r: bool)
    requires
        lo <= hi <= v.len(),
    ensures
        r == eq_ignore_ascii_case(v@.subrange(lo as int, hi as int), w@),
{
    if hi - lo != w.len() {
        return false;
    }
    let mut i: usize = 0;
    while i < w.len()
        invariant
            hi - lo == w.len(),
            lo <= hi <= v.len(),
            i <= w.len(),
            forall|k: int| 0 <= k < i ==> ascii_fold(v@[lo + k]) == ascii_fold(w@[k]),
        decreases w.len() - i,
    {
        if ascii_fold_exec(v[lo + i]) != ascii_fold_exec(w[i]) {
            assert(v@.subrange(lo as int, hi as int)[i as int] == v@[lo + i]);
            return false;
        }
        i += 1;
    }
    assert forall|k: int| 0 <= k < hi - lo implies ascii_fold(#[trigger] v@.subrange(lo as int, hi as int)[k])
        == ascii_fold(w@[k]) by {
        assert(v@.subrange(lo as int, hi as int)[k] == v@[lo + k]);
    }
    true
}

/// Index of the last `.` in `v`.
fn find_last_dot(v: &Vec<char>) -> (r: Option<usize>)
    ensures
        match r {
            Some(i) => last_dot(v@) == Some(i as nat) && i < v.len(),
            None => last_dot(v@) is None,
        },
{
    let mut j = v.len();
    assert(v@.take(j as int) =~= v@);
    while j > 0 && v[j - 1] != '.'
        invariant
            j <= v.len(),
            last_dot(v@) == last_dot(v@.take(j as int)),
        decreases j,
    {
        assert(v@.take(j as int).drop_last() =~= v@.take(j - 1));
        j -= 1;
    }
    if j == 0 {
        None
    } else {
        Some(j - 1)
    }
}

/// Whether a file name is that of a music file.
pub fn is_music_file(name: &str) -> (r: bool)
    ensures
        r == is_music_file_name(name@),
{
    let v = chars_of(name);
    if v.len() == 2 && v[0] == '.' && v[1] == '.' {
        assert(v@ =~= seq!['.', '.']);
        return false;
    }
    assert(v@ != seq!['.', '.']);
    let i = match find_last_dot(&v) {
        Some(i) if i > 0 => i,
        _ => {
            return false;
        },
    };
    assert(v@.skip(i + 1int) =~= v@.subrange(i + 1, v@.len() as int));
    let exts: Vec<&str> = vec!["mp3", "flac", "ogg", "wav", "m4a", "opus", "wma"];
    let mut k: usize = 0;
    while k < exts.len()
        invariant
            v@ == name@,
            i < v.len(),
            i > 0,
            last_dot(v@) == Some(i as nat),
            v@ != seq!['.', '.'],
            v@.skip(i + 1int) == v@.subrange(i + 1, v@.len() as int),
            exts@.len() == music_extensions().len(),
            forall|q: int| 0 <= q < exts@.len() ==> (#[trigger] exts@[q])@ == music_extensions()[q],
            k <= exts.len(),
            forall|q: int| 0 <= q < k ==> !eq_ignore_ascii_case(v@.subrange(i + 1, v@.len() as int), #[trigger] music_extensions()[q]),
        decreases exts.len() - k,
    {
        let w = chars_of(exts[k]);
        if eq_ignore_ascii_case_range(&v, i + 1, v.len(), &w) {
            proof {
                assert(eq_ignore_ascii_case(v@.subrange(i + 1, v@.len() as int), music_extensions()[k as int]));
                assert(extension(v@) == Some(v@.subrange(i + 1, v@.len() as int)));
            }
            return true;
        }
        k += 1;
    }
    false
}

/// Whether a directory entry is hidden.
pub fn is_hidden_name(name: &str) -> (r: bool)
    ensures
        r == is_hidden(name@),
{
    let v = chars_of(name);
    v.len() > 0 && v[0] == '.'
}

proof fn lemma_components_step(s: Seq<char>, pos: int, k: int)
    requires
        0 <= pos < s.len(),
        pos <= k <= s.len(),
        seg_break(s.skip(pos)) == k - pos,
    ensures
        components(s.skip(pos)) == {
            let seg = s.subrange(pos, k);
            let rest = if k < s.len() {
                components(s.skip(k + 1))
            } else {
                Seq::empty()
            };
            if seg.len() == 0 || seg == seq!['.'] {
                rest
            } else {
                seq![seg] + rest
            }
        },
{
    assert(s.skip(pos).take(k - pos) =~= s.subrange(pos, k));
    if k < s.len() {
        assert(s.skip(pos).skip(k - pos + 1) =~= s.skip(k + 1));
    }
}

/// The last two components of a path: (the one before the last, the last),
/// as ranges of its characters.
fn last_components(v: &Vec<char>) -> (r: (Option<(usize, usize)>, Option<(usize, usize)>))
    ensures
        ({
            let c = components(v@);
            &&& (r.1 is Some <==> c.len() >= 1)
            &&& (r.0 is Some <==> c.len() >= 2)
            &&& (r.1 matches Some((a, b)) ==> a <= b <= v.len() && c.last() == v@.subrange(a as int, b as int))
            &&& (r.0 matches Some((a, b)) ==> a <= b <= v.len() && c[c.len() - 2] == v@.subrange(a as int, b as int))
        }),
{
    let n = v.len();
    let mut pos: usize = 0;
    let mut last: Option<(usize, usize)> = None;
    let mut prev: Option<(usize, usize)> = None;
    let ghost mut acc: Seq<Seq<char>> = Seq::empty();
    assert(v@.skip(0) =~= v@);
    while pos < n
        invariant
            pos <= n == v.len(),
            components(v@) == acc + components(v@.skip(pos as int)),
            last is Some <==> acc.len() >= 1,
            prev is Some <==> acc.len() >= 2,
            last matches Some((a, b)) ==> a <= b <= n && acc.last() == v@.subrange(a as int, b as int),
            prev matches Some((a, b)) ==> a <= b <= n && acc[acc.len() - 2] == v@.subrange(a as int, b as int),
        decreases n - pos,
    {
        let mut end = pos;
        while end < n && v[end] != '/'
            invariant
                pos <= end <= n == v.len(),
                seg_break(v@.skip(pos as int)) == (end - pos) + seg_break(v@.skip(end as int)),
            decreases n - end,
        {
            assert(v@.skip(end as int).drop_first() =~= v@.skip(end + 1));
            end += 1;
        }
        let ghost old_pos = pos;
        let ghost old_acc = acc;
        let ghost seg = v@.subrange(pos as int, end as int);
        let ghost rest = if end < n {
            components(v@.skip(end + 1))
        } else {
            Seq::<Seq<char>>::empty()
        };
        proof {
            lemma_components_step(v@, pos as int, end as int);
            assert(components(v@.skip(pos as int)) == if seg.len() == 0 || seg == seq!['.'] {
                rest
            } else {
                seq![seg] + rest
            });
        }
        let len = end - pos;
        let is_dot = len == 1 && v[pos] == '.';
        proof {
            if len == 1 {
                if v@[pos as int] == '.' {
                    assert(v@.subrange(pos as int, end as int) =~= seq!['.']);
                } else {
                    assert(v@.subrange(pos as int, end as int)[0] != seq!['.'][0]);
                }
            }
        }
        if len > 0 && !is_dot {
            prev = last;
            last = Some((pos, end));
            proof {
                let seg = v@.subrange(pos as int, end as int);
                let rest = if end < n {
                    components(v@.skip(end + 1))
                } else {
                    Seq::empty()
                };
                assert(acc + (seq![seg] + rest) =~= acc.push(seg) + rest);
                acc = acc.push(seg);
            }
        }
        if end == n {
            proof {
                assert(v@.skip(n as int).len() == 0);
                assert(components(v@.skip(n as int)) =~= Seq::<Seq<char>>::empty());
                assert(acc + Seq::<Seq<char>>::empty() =~= acc);
            }
            pos = n;
        } else {
            pos = end + 1;
        }
        proof {
            if seg.len() == 0 || seg == seq!['.'] {
                assert(acc == old_acc);
                assert(components(v@) == old_acc + rest);
                assert(rest == components(v@.skip(pos as int)));
            } else {
                assert(acc == old_acc.push(seg));
                assert(components(v@) == old_acc + (seq![seg] + rest));
                assert(rest == components(v@.skip(pos as int)));
            }
        }
    }
    proof {
        assert(v@.skip(pos as int).len() == 0);
        assert(acc + Seq::<Seq<char>>::empty() =~= acc);
    }
    (prev, last)
}

/// The title, artist and album a newly found track gets: the file's stem,
/// no artist, and the name of its directory.
pub open spec fn scanned_record(path: Seq<char>, duration_ms: u64) -> crate::music_db::TrackRecord {
    crate::music_db::TrackRecord {
        path,
        title: match file_name(path) {
            Some(n) => file_stem(n),
            None => Seq::empty(),
        },
        artist: Seq::empty(),
        album: match parent_name(path) {
            Some(n) => n,
            None => Seq::empty(),
        },
        duration_ms,
        play_count: 0,
        is_favorite: false,
        last_played: 0,
    }
}

fn is_dotdot_range(v: &Vec<char>, a: usize, b: usize) -> (r: bool)
    requires
        a <= b <= v.len(),
    ensures
        r == (v@.subrange(a as int, b as int) == dotdot()),
{
    let ghost seg = v@.subrange(a as int, b as int);
    if b - a != 2 {
        assert(seg.len() != dotdot().len());
        return false;
    }
    if v[a] != '.' {
        assert(seg[0] != dotdot()[0]);
        return false;
    }
    if v[a + 1] != '.' {
        assert(seg[1] != dotdot()[1]);
        return false;
    }
    assert(seg =~= dotdot());
    true
}

/// The characters of an optional string.
pub open spec fn opt_seq(o: Option<String>) -> Option<Seq<char>> {
    match o {
        Some(s) => Some(s@),
        None => None,
    }
}

/// `Path::file_stem` of a path.
pub fn file_stem_of(path: &str) -> (r: Option<String>)
    ensures
        opt_seq(r) == match file_name(path@) {
            Some(n) => Some(file_stem(n)),
            None => None,
        },
{
    let v = chars_of(path);
    let (_prev, last) = last_components(&v);
    match last {
        Some((a, b)) => {
            if is_dotdot_range(&v, a, b) {
                None
            } else {
                let name = string_of_range(&v, a, b);
                let nv = chars_of(name.as_str());
                proof {
                    assert(nv@.take(nv@.len() as int) =~= nv@);
                }
                match find_last_dot(&nv) {
                    Some(i) if i > 0 => Some(string_of_range(&nv, 0, i)),
                    _ => Some(name),
                }
            }
        },
        None => None,
    }
}

/// `Path::parent` followed by `Path::file_name`.
pub fn parent_name_of(path: &str) -> (r: Option<String>)
    ensures
        opt_seq(r) == parent_name(path@),
{
    let v = chars_of(path);
    let (prev, _last) = last_components(&v);
    match prev {
        Some((a, b)) => {
            if is_dotdot_range(&v, a, b) {
                None
            } else {
                Some(string_of_range(&v, a, b))
            }
        },
        None => None,
    }
}

/// The statistics a newly found track gets: named by its file and
/// directory, never played, not a favorite.
pub fn scanned_track(path: &str, duration_ms: u64) -> (t: TrackStat)
    ensures
        t@ == scanned_record(path@, duration_ms),
{
    let title = match file_stem_of(path) {
        Some(t) => t,
        None => String::new(),
    };
    let album = match parent_name_of(path) {
        Some(a) => a,
        None => String::new(),
    };
    TrackStat {
        path: to_owned_string(path),
        title,
        artist: String::new(),
        album,
        duration_ms,
        play_count: 0,
        is_favorite: false,
        last_played: 0,
    }
}

/// What a directory entry is.
#[derive(PartialEq, Eq, Structural, Clone, Copy, Debug)]
pub enum EntryKind {
    Directory,
    File,
    Other,
}

/// What the scan does with a directory entry.
#[derive(PartialEq, Eq, Structural, Clone, Copy, Debug)]
pub enum ScanStep {
    /// Hidden, not a music file, or neither a file nor a directory.
    Skip,
    /// A directory: it is walked later and counted as an album.
    Descend,
    /// A music file: it is stored as a track (see [`MusicScan::record_track`]).
    Track,
}

/// What the scan does with an entry named `name` of kind `kind`.
pub open spec fn scan_step(name: Seq<char>, kind: EntryKind) -> ScanStep {
    if is_hidden(name) {
        ScanStep::Skip
    } else {
        match kind {
            EntryKind::Directory => ScanStep::Descend,
            EntryKind::File => if is_music_file_name(name) {
                ScanStep::Track
            } else {
                ScanStep::Skip
            },
            EntryKind::Other => ScanStep::Skip,
        }
    }
}

/// A walk over the music folder: the directories still to read (read last
/// found first), and the counts so far. Every directory found counts as an
/// album; every music file that is (or already was) stored counts as a track.
pub struct MusicScan {
    pub pending: Vec<String>,
    pub track_count: usize,
    pub album_count: usize,
}

impl MusicScan {
    /// A walk that starts at the folder `root`.
    pub fn new(root: &str) -> (s: Self)
        ensures
            s.pending@.len() == 1,
            s.pending@[0]@ == root@,
            s.track_count == 0,
            s.album_count == 0,
    {
        let mut pending: Vec<String> = Vec::new();
        pending.push(to_owned_string(root));
        MusicScan { pending, track_count: 0, album_count: 0 }
    }

    /// The next directory to read (the one found last), if any is left.
    pub fn next_dir(&mut self) -> (r: Option<String>)
        ensures
            old(self).pending@.len() == 0 ==> r is None && final(self).pending@ == old(self).pending@,
            old(self).pending@.len() > 0 ==> r == Some(old(self).pending@.last())
                && final(self).pending@ == old(self).pending@.drop_last(),
            final(self).track_count == old(self).track_count,
            final(self).album_count == old(self).album_count,
    {
        self.pending.pop()
    }

    /// Takes in the entry `name` (at `path`) of the directory being read.
    pub fn visit(&mut self, name: &str, path: String, kind: EntryKind) -> (r: ScanStep)
        requires
            old(self).album_count < usize::MAX,
        ensures
            r == scan_step(name@, kind),
            r == ScanStep::Descend ==> final(self).pending@ == old(self).pending@.push(path)
                && final(self).album_count == old(self).album_count + 1,
            r != ScanStep::Descend ==> final(self).pending@ == old(self).pending@
                && final(self).album_count == old(self).album_count,
            final(self).track_count == old(self).track_count,
    {
        if is_hidden_name(name) {
            return ScanStep::Skip;
        }
        match kind {
            EntryKind::Directory => {
                self.pending.push(path);
                self.album_count = self.album_count + 1;
                ScanStep::Descend
            },
            EntryKind::File => {
                if is_music_file(name) {
                    ScanStep::Track
                } else {
                    ScanStep::Skip
                }
            },
            EntryKind::Other => ScanStep::Skip,
        }
    }

    /// Counts a music file once it is stored (or was already).
    pub fn record_track(&mut self, stored: bool)
        requires
            old(self).track_count < usize::MAX,
        ensures
            final(self).track_count == old(self).track_count + if stored {
                1int
            } else {
                0int
            },
            final(self).album_count == old(self).album_count,
            final(self).pending@ == old(self).pending@,
    {
        if stored {
            self.track_count = self.track_count + 1;
        }
    }

    /// The counts: (tracks, albums).
    pub fn counts(&self) -> (r: (usize, usize))
        ensures
            r == (self.track_count, self.album_count),
    {
        (self.track_count, self.album_count)
    }
}

proof fn lemma_last_dot(s: Seq<char>)
    ensures
        last_dot(s) matches Some(i) ==> i < s.len() && s[i as int] == '.' && forall|j: int|
            i < j < s.len() ==> s[j] != '.',
        last_dot(s) is None ==> forall|j: int| 0 <= j < s.len() ==> s[j] != '.',
    decreases s.len(),
{
    if s.len() > 0 {
        lemma_last_dot(s.drop_last());
        assert forall|j: int| 0 <= j < s.len() - 1 implies s.drop_last()[j] == s[j] by {}
    }
}

/// A file's stem is the name without its last extension only: a prefix of
/// the name; when shorter, it is not empty, the name goes on with `.`, and
/// no `.` follows; when the whole name, the name has no `.` but a leading
/// one (or is `..`). With the extension put back after a `.`, it is the
/// name again.
pub proof fn law_file_stem(n: Seq<char>)
    ensures
        ({
            let t = file_stem(n);
            &&& t.len() <= n.len()
            &&& n.take(t.len() as int) == t
            &&& t.len() < n.len() ==> {
                &&& t.len() > 0
                &&& n[t.len() as int] == '.'
                &&& forall|j: int| t.len() < j < n.len() ==> n[j] != '.'
            }
            &&& t.len() == n.len() ==> (n == seq!['.', '.'] || forall|j: int| 0 < j < n.len() ==> n[j] != '.')
            &&& extension(n) matches Some(e) ==> t + seq!['.'] + e == n
            &&& extension(n) is None ==> t == n
        }),
{
    lemma_last_dot(n);
    let t = file_stem(n);
    if n == seq!['.', '.'] {
        assert(n.take(n.len() as int) =~= n);
    } else {
        match last_dot(n) {
            Some(i) => {
                if i > 0 {
                    assert(t.len() == i);
                    assert(n.take(i as int).take(i as int) =~= n.take(i as int));
                    assert(n.take(i as int) + seq!['.'] + n.skip(i + 1int) =~= n);
                } else {
                    assert(n.take(n.len() as int) =~= n);
                }
            },
            None => {
                assert(n.take(n.len() as int) =~= n);
            },
        }
    }
}

/// A newly found track: its path, its title the file's name without its
/// last extension only (put back after a `.`, the name again), no artist,
/// its album the name of its directory, the duration given, never played,
/// not a favorite.
pub proof fn law_scanned_track(path: Seq<char>, duration_ms: u64)
    ensures
        ({
            let r = scanned_record(path, duration_ms);
            &&& r.path == path
            &&& r.artist.len() == 0
            &&& r.duration_ms == duration_ms
            &&& r.play_count == 0 && !r.is_favorite && r.last_played == 0
            &&& r.album == match parent_name(path) {
                Some(a) => a,
                None => Seq::<char>::empty(),
            }
            &&& file_name(path) matches Some(n) ==> {
                &&& r.title.len() <= n.len()
                &&& n.take(r.title.len() as int) == r.title
                &&& (extension(n) matches Some(e) ==> r.title + seq!['.'] + e == n)
                &&& (extension(n) is None ==> r.title == n)
                &&& (r.title.len() < n.len() ==> forall|j: int| r.title.len() < j < n.len() ==> n[j] != '.')
            }
            &&& file_name(path) is None ==> r.title.len() == 0
        }),
{
    match file_name(path) {
        Some(n) => law_file_stem(n),
        None => {},
    }
}

} // verus!
