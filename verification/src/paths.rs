//! Where the applet keeps its files: the data directory, the store's file
//! and the music folder, computed from the environment's values and the
//! XDG user-directories file; and the parts of a file path that name a track.
use vstd::prelude::*;
use crate::text::{chars_of, concat, string_of, string_of_range, to_owned_string};

verus! {

broadcast use vstd::string::group_string_axioms;

/// `Path::join` on Unix: an absolute `p` replaces `base`; otherwise `p` is
/// appended, with a `/` between them when `base` is not empty and does not
/// already end with one.
pub open spec fn path_join(base: Seq<char>, p: Seq<char>) -> Seq<char> {
    if p.len() > 0 && p[0] == '/' {
        p
    } else if base.len() > 0 && base.last() != '/' {
        base + seq!['/'] + p
    } else {
        base + p
    }
}

/// Joins two paths as `Path::join` does on Unix.
pub fn join_path(base: &str, p: &str) -> (r: String)
    ensures
        r@ == path_join(base@, p@),
{
    let pc = chars_of(p);
    if pc.len() > 0 && pc[0] == '/' {
        return to_owned_string(p);
    }
    let bc = chars_of(base);
    if bc.len() > 0 && bc[bc.len() - 1] != '/' {
        let with_sep = concat(base, "/");
        proof {
            reveal_strlit("/");
        }
        concat(with_sep.as_str(), p)
    } else {
        concat(base, p)
    }
}

/// The applet's data directory: `$XDG_DATA_HOME` if set and not empty,
/// else `$HOME/.local/share` if `$HOME` is set and not empty, else `/tmp`.
pub open spec fn data_home_spec(xdg_data_home: Option<Seq<char>>, home: Option<Seq<char>>) -> Seq<char> {
    match xdg_data_home {
        Some(x) if x.len() > 0 => x,
        _ => match home {
            Some(h) if h.len() > 0 => path_join(h, ".local/share"@),
            _ => "/tmp"@,
        },
    }
}

/// The characters of an optional string slice.
pub open spec fn opt_view(o: Option<&str>) -> Option<Seq<char>> {
    match o {
        Some(s) => Some(s@),
        None => None,
    }
}

/// The applet's data directory, from the values of `XDG_DATA_HOME` and
/// `HOME` (`None` when unset).
pub fn data_home(xdg_data_home: Option<&str>, home: Option<&str>) -> (r: String)
    ensures
        r@ == data_home_spec(opt_view(xdg_data_home), opt_view(home)),
{
    if let Some(x) = xdg_data_home {
        if !x.is_empty() {
            return to_owned_string(x);
        }
    }
    if let Some(h) = home {
        if !h.is_empty() {
            return join_path(h, ".local/share");
        }
    }
    to_owned_string("/tmp")
}

/// The store's file under the data directory `data_home`.
pub open spec fn db_path_spec(data_home: Seq<char>) -> Seq<char> {
    path_join(path_join(data_home, "cosmic-media-applet"@), "music_stats.db"@)
}

/// The store's file under the data directory `data_home`:
/// `cosmic-media-applet/music_stats.db`.
pub fn _db_path(data_home: &str) -> (r: String)
    ensures
        r@ == db_path_spec(data_home@),
{
    let dir = join_path(data_home, "cosmic-media-applet");
    join_path(dir.as_str(), "music_stats.db")
}

/// Unicode white space (`char::is_whitespace`).
pub open spec fn is_unicode_space(c: char) -> bool {
    ||| '\u{9}' <= c <= '\u{d}'
    ||| c == ' '
    ||| c == '\u{85}'
    ||| c == '\u{a0}'
    ||| c == '\u{1680}'
    ||| '\u{2000}' <= c <= '\u{200a}'
    ||| c == '\u{2028}'
    ||| c == '\u{2029}'
    ||| c == '\u{202f}'
    ||| c == '\u{205f}'
    ||| c == '\u{3000}'
}

/// Unicode white space (`char::is_whitespace`).
pub fn is_unicode_space_exec(c: char) -> (r: bool)
    ensures
        r == is_unicode_space(c),
{
    ('\u{9}' <= c && c <= '\u{d}') || c == ' ' || c == '\u{85}' || c == '\u{a0}' || c == '\u{1680}'
        || ('\u{2000}' <= c && c <= '\u{200a}') || c == '\u{2028}' || c == '\u{2029}' || c
        == '\u{202f}' || c == '\u{205f}' || c == '\u{3000}'
}

/// Which characters a trim removes.
pub enum Trimmed {
    Space,
    Quote,
}

impl Trimmed {
    pub open spec fn removes(&self, c: char) -> bool {
        match self {
            Trimmed::Space => is_unicode_space(c),
            Trimmed::Quote => c == '"',
        }
    }

    pub fn removes_exec(&self, c: char) -> (r: bool)
        ensures
            r == self.removes(c),
    {
        match self {
            Trimmed::Space => is_unicode_space_exec(c),
            Trimmed::Quote => c == '"',
        }
    }
}

/// `s` without its leading characters that `t` removes.
pub open spec fn trim_start_spec(s: Seq<char>, t: Trimmed) -> Seq<char>
    decreases s.len(),
{
    if s.len() > 0 && t.removes(s[0]) {
        trim_start_spec(s.drop_first(), t)
    } else {
        s
    }
}

/// `s` without its trailing characters that `t` removes.
pub open spec fn trim_end_spec(s: Seq<char>, t: Trimmed) -> Seq<char>
    decreases s.len(),
{
    if s.len() > 0 && t.removes(s.last()) {
        trim_end_spec(s.drop_last(), t)
    } else {
        s
    }
}

/// `s` without its leading and trailing characters that `t` removes
/// (`str::trim` for white space, `str::trim_matches` for a quote).
pub open spec fn trim_spec(s: Seq<char>, t: Trimmed) -> Seq<char> {
    trim_end_spec(trim_start_spec(s, t), t)
}

/// The bounds of `v[lo..hi]` trimmed by `t`.
pub fn trim_range(v: &Vec<char>, lo: usize, hi: usize, t: &Trimmed) -> (r: (usize, usize))
    requires
        lo <= hi <= v.len(),
    ensures
        lo <= r.0 <= r.1 <= hi,
        v@.subrange(r.0 as int, r.1 as int) == trim_spec(v@.subrange(lo as int, hi as int), *t),
{
    let mut a = lo;
    while a < hi && t.removes_exec(v[a])
        invariant
            lo <= a <= hi <= v.len(),
            trim_start_spec(v@.subrange(lo as int, hi as int), *t) == trim_start_spec(
                v@.subrange(a as int, hi as int),
                *t,
            ),
        decreases hi - a,
    {
        assert(v@.subrange(a as int, hi as int).drop_first() =~= v@.subrange(a + 1, hi as int));
        a += 1;
    }
    let mut b = hi;
    while b > a && t.removes_exec(v[b - 1])
        invariant
            lo <= a <= b <= hi <= v.len(),
            trim_start_spec(v@.subrange(lo as int, hi as int), *t) == trim_start_spec(
                v@.subrange(a as int, hi as int),
                *t,
            ),
            trim_spec(v@.subrange(lo as int, hi as int), *t) == trim_end_spec(
                v@.subrange(a as int, b as int),
                *t,
            ),
        decreases b - a,
    {
        assert(v@.subrange(a as int, b as int).drop_last() =~= v@.subrange(a as int, b - 1));
        b -= 1;
    }
    (a, b)
}

/// Whether `v[lo..hi]` starts with `prefix`.
pub fn starts_with_range(v: &Vec<char>, lo: usize, hi: usize, prefix: &Vec<char>) -> (r: bool)
    requires
        lo <= hi <= v.len(),
    ensures
        r == (prefix@.len() <= hi - lo && v@.subrange(lo as int, lo + prefix@.len()) == prefix@),
{
    if prefix.len() > hi - lo {
        return false;
    }
    let mut i: usize = 0;
    while i < prefix.len()
        invariant
            prefix.len() <= hi - lo,
            lo <= hi <= v.len(),
            i <= prefix.len(),
            forall|k: int| 0 <= k < i ==> v@[lo + k] == prefix@[k],
        decreases prefix.len() - i,
    {
        if v[lo + i] != prefix[i] {
            assert(v@.subrange(lo as int, lo + prefix@.len())[i as int] != prefix@[i as int]);
            return false;
        }
        i += 1;
    }
    assert(v@.subrange(lo as int, lo + prefix@.len()) =~= prefix@);
    true
}

/// Index of the first `\n` in `s`, or its length if it has none.
pub open spec fn line_break(s: Seq<char>) -> nat
    decreases s.len(),
{
    if s.len() == 0 {
        0
    } else if s[0] == '\n' {
        0
    } else {
        1 + line_break(s.drop_first())
    }
}

/// The first line of `s` as `str::lines` yields it: up to the first `\n`,
/// without a `\r` just before that `\n`; the whole text if it has no `\n`.
pub open spec fn first_line(s: Seq<char>) -> Seq<char> {
    let k = line_break(s);
    if k < s.len() {
        let l = s.take(k as int);
        if l.len() > 0 && l.last() == '\r' {
            l.drop_last()
        } else {
            l
        }
    } else {
        s
    }
}

/// The key of the music folder in the user-directories file.
pub open spec fn music_key() -> Seq<char> {
    "XDG_MUSIC_DIR="@
}

/// The text after `XDG_MUSIC_DIR=` on the first line of `s` that starts
/// with it.
pub open spec fn music_entry(s: Seq<char>) -> Option<Seq<char>>
    decreases s.len(),
{
    if s.len() == 0 {
        None
    } else {
        let l = first_line(s);
        let k = line_break(s);
        if l.len() >= music_key().len() && l.take(music_key().len() as int) == music_key() {
            Some(l.skip(music_key().len() as int))
        } else if k < s.len() {
            music_entry(s.skip(k + 1int))
        } else {
            None
        }
    }
}

/// The music folder that an `XDG_MUSIC_DIR` value gives, for home `home`:
/// the value trimmed of white space and quotes; a leading `$HOME` stands for
/// the home directory (one `/` after it is dropped; nothing left means
/// `Music`).
pub open spec fn music_dir_value(home: Seq<char>, value: Seq<char>) -> Seq<char> {
    let trimmed = trim_spec(trim_spec(value, Trimmed::Space), Trimmed::Quote);
    let h = "$HOME"@;
    if trimmed.len() >= h.len() && trimmed.take(h.len() as int) == h {
        let expanded = trimmed.skip(h.len() as int);
        let stripped = if expanded.len() > 0 && expanded[0] == '/' {
            expanded.drop_first()
        } else {
            expanded
        };
        if expanded.len() > 0 && stripped.len() > 0 {
            path_join(home, stripped)
        } else {
            path_join(home, "Music"@)
        }
    } else {
        trimmed
    }
}

/// The music folder: with a non-empty home, the `XDG_MUSIC_DIR` of the
/// user-directories file (its contents `user_dirs`, if it could be read), else
/// `$HOME/Music`; without one, `/tmp/Music`.
pub open spec fn music_folder_spec(home: Option<Seq<char>>, user_dirs: Option<Seq<char>>) -> Seq<char> {
    match home {
        Some(h) if h.len() > 0 => match user_dirs {
            Some(content) => match music_entry(content) {
                Some(value) => music_dir_value(h, value),
                None => path_join(h, "Music"@),
            },
            None => path_join(h, "Music"@),
        },
        _ => "/tmp/Music"@,
    }
}

/// The value after `XDG_MUSIC_DIR=` on the first line of `content` that has
/// that key.
fn find_music_entry(content: &Vec<char>) -> (r: Option<(usize, usize)>)
    ensures
        match r {
            Some((a, b)) => a <= b <= content.len() && music_entry(content@) == Some(
                content@.subrange(a as int, b as int),
            ),
            None => music_entry(content@) is None,
        },
{
    let key = chars_of("XDG_MUSIC_DIR=");
    let n = content.len();
    let mut pos: usize = 0;
    assert(content@.skip(0) =~= content@);
    while pos < n
        invariant
            pos <= n == content.len(),
            key@ == music_key(),
            music_entry(content@) == music_entry(content@.skip(pos as int)),
        decreases n - pos,
    {
        let ghost s = content@.skip(pos as int);
        let mut end = pos;
        while end < n && content[end] != '\n'
            invariant
                pos <= end <= n == content.len(),
                s == content@.skip(pos as int),
                line_break(s) == (end - pos) + line_break(content@.skip(end as int)),
            decreases n - end,
        {
            assert(content@.skip(end as int).drop_first() =~= content@.skip(end + 1));
            end += 1;
        }
        proof {
            assert(line_break(s) == end - pos);
        }
        let mut line_end = end;
        if end < n && end > pos && content[end - 1] == '\r' {
            line_end = end - 1;
        }
        proof {
            assert(s.take((end - pos) as int) =~= content@.subrange(pos as int, end as int));
            if end < n && end > pos && content[end - 1] == '\r' {
                assert(content@.subrange(pos as int, end as int).drop_last() =~= content@.subrange(pos as int, line_end as int));
            }
            if end == n {
                assert(s =~= content@.subrange(pos as int, end as int));
            }
            assert(first_line(s) =~= content@.subrange(pos as int, line_end as int));
        }
        let hit = starts_with_range(content, pos, line_end, &key);
        proof {
            let l = first_line(s);
            if key@.len() <= line_end - pos {
                assert(l.take(music_key().len() as int) =~= content@.subrange(
                    pos as int,
                    pos + key@.len(),
                ));
            }
        }
        if hit {
            proof {
                assert(first_line(s).skip(music_key().len() as int) =~= content@.subrange(
                    pos + key.len(),
                    line_end as int,
                ));
            }
            return Some((pos + key.len(), line_end));
        }
        if end == n {
            return None;
        }
        proof {
            assert(s.skip(end - pos + 1) =~= content@.skip(end + 1));
        }
        pos = end + 1;
    }
    proof {
        assert(content@.skip(pos as int).len() == 0);
    }
    None
}

/// The music folder, from the value of `HOME` (`None` when unset) and the
/// contents of `$HOME/.config/user-dirs.dirs` (`None` when it could not be
/// read).
pub fn music_folder(home: Option<&str>, user_dirs: Option<&str>) -> (r: String)
    ensures
        r@ == music_folder_spec(opt_view(home), opt_view(user_dirs)),
{
    let h = match home {
        Some(h) if !h.is_empty() => h,
        _ => {
            return to_owned_string("/tmp/Music");
        },
    };
    let content = match user_dirs {
        Some(c) => chars_of(c),
        None => {
            return join_path(h, "Music");
        },
    };
    let (a, b) = match find_music_entry(&content) {
        Some(range) => range,
        None => {
            return join_path(h, "Music");
        },
    };
    let (a1, b1) = trim_range(&content, a, b, &Trimmed::Space);
    let (a2, b2) = trim_range(&content, a1, b1, &Trimmed::Quote);
    proof {
        assert(content@.subrange(a1 as int, b1 as int).subrange(a2 - a1, b2 - a1) =~= content@.subrange(
            a2 as int,
            b2 as int,
        ));
        assert(content@.subrange(a as int, b as int).subrange(a1 - a, b1 - a) =~= content@.subrange(
            a1 as int,
            b1 as int,
        ));
    }
    let ghost trimmed = content@.subrange(a2 as int, b2 as int);
    let ghost value = content@.subrange(a as int, b as int);
    assert(trim_spec(trim_spec(value, Trimmed::Space), Trimmed::Quote) == trimmed);
    assert(music_entry(content@) == Some(value));
    let dollar_home = chars_of("$HOME");
    if starts_with_range(&content, a2, b2, &dollar_home) {
        let start = a2 + dollar_home.len();
        proof {
            assert(trimmed.take(dollar_home@.len() as int) =~= content@.subrange(a2 as int, start as int));
            assert(trimmed.skip(dollar_home@.len() as int) =~= content@.subrange(start as int, b2 as int));
        }
        if start < b2 {
            let s2 = if content[start] == '/' {
                start + 1
            } else {
                start
            };
            proof {
                if content[start as int] == '/' {
                    assert(content@.subrange(start as int, b2 as int).drop_first() =~= content@.subrange(
                        s2 as int,
                        b2 as int,
                    ));
                }
            }
            if s2 < b2 {
                let stripped = string_of_range(&content, s2, b2);
                let r = join_path(h, stripped.as_str());
                assert(r@ == music_dir_value(h@, value));
                return r;
            }
        }
        let r = join_path(h, "Music");
        assert(r@ == music_dir_value(h@, value));
        r
    } else {
        proof {
            if dollar_home@.len() <= b2 - a2 {
                assert(trimmed.take(dollar_home@.len() as int) =~= content@.subrange(
                    a2 as int,
                    a2 + dollar_home@.len(),
                ));
            }
        }
        let r = string_of_range(&content, a2, b2);
        assert(r@ == music_dir_value(h@, value));
        r
    }
}

} // verus!
