//! SQL `LIKE` pattern matching, as SQLite applies it to text by default:
//! `%` stands for any run of characters, `_` for any one character, and
//! ASCII letters match without regard to case.
use vstd::prelude::*;

verus! {

/// ASCII upper-case letters to lower case; every other character as is.
pub open spec fn ascii_fold(c: char) -> char {
    if 'A' <= c <= 'Z' {
        ((c as u32) + 32) as char
    } else {
        c
    }
}

/// ASCII upper-case letters to lower case; every other character as is.
pub fn ascii_fold_exec(c: char) -> (r: char)
    ensures
        r == ascii_fold(c),
{
    if 'A' <= c && c <= 'Z' {
        ((c as u8) + 32) as char
    } else {
        c
    }
}

/// Whether text `s` matches the `LIKE` pattern `p`.
pub open spec fn like_match(s: Seq<char>, p: Seq<char>) -> bool
    decreases p.len(), s.len(),
{
    if p.len() == 0 {
        s.len() == 0
    } else if p[0] == '%' {
        like_match(s, p.drop_first()) || (s.len() > 0 && like_match(s.drop_first(), p))
    } else if s.len() == 0 {
        false
    } else if p[0] == '_' {
        like_match(s.drop_first(), p.drop_first())
    } else {
        ascii_fold(s[0]) == ascii_fold(p[0]) && like_match(s.drop_first(), p.drop_first())
    }
}

proof fn lemma_like_unfold(s: Seq<char>, p: Seq<char>, i: int, j: int)
    requires
        0 <= i <= s.len(),
        0 <= j < p.len(),
    ensures
        like_match(s.skip(i), p.skip(j)) == if p[j] == '%' {
            like_match(s.skip(i), p.skip(j + 1)) || (i < s.len() && like_match(
                s.skip(i + 1),
                p.skip(j),
            ))
        } else if i == s.len() {
            false
        } else if p[j] == '_' {
            like_match(s.skip(i + 1), p.skip(j + 1))
        } else {
            ascii_fold(s[i]) == ascii_fold(p[j]) && like_match(s.skip(i + 1), p.skip(j + 1))
        },
{
    assert(p.skip(j).drop_first() =~= p.skip(j + 1));
    assert(p.skip(j)[0] == p[j]);
    if i < s.len() {
        assert(s.skip(i).drop_first() =~= s.skip(i + 1));
        assert(s.skip(i)[0] == s[i]);
    }
}

/// Whether text `s` matches the `LIKE` pattern `p`
/// (dynamic programming over the suffixes of both).
pub fn like_matches(s: &Vec<char>, p: &Vec<char>) -> (r: bool)
    ensures
        r == like_match(s@, p@),
{
    let n = s.len();
    let m = p.len();
    // `next[i]` (and `next_end` for i == n): whether s[i..] matches p[j..]
    let mut next: Vec<bool> = Vec::new();
    let mut k: usize = 0;
    while k < n
        invariant
            k <= n == s.len(),
            next.len() == k,
            forall|i: int| 0 <= i < k ==> next@[i] == false,
        decreases n - k,
    {
        next.push(false);
        k += 1;
    }
    proof {
        assert forall|i: int| 0 <= i < n implies next@[i] == like_match(s@.skip(i), p@.skip(m as int)) by {
            assert(p@.skip(m as int).len() == 0);
        }
        assert(s@.skip(n as int).len() == 0);
        assert(p@.skip(m as int).len() == 0);
    }
    let mut next_end: bool = true;
    let mut j: usize = m;
    while j > 0
        invariant
            j <= m == p.len(),
            n == s.len(),
            next.len() == n,
            forall|i: int| 0 <= i < n ==> next@[i] == like_match(s@.skip(i), p@.skip(j as int)),
            next_end == like_match(s@.skip(n as int), p@.skip(j as int)),
        decreases j,
    {
        j -= 1;
        let pj = p[j];
        let cur_end = if pj == '%' {
            next_end
        } else {
            false
        };
        proof {
            lemma_like_unfold(s@, p@, n as int, j as int);
        }
        let mut cur: Vec<bool> = next.clone();
        let mut i: usize = n;
        while i > 0
            invariant
                i <= n == s.len(),
                j < m == p.len(),
                pj == p@[j as int],
                cur.len() == n,
                next.len() == n,
                forall|q: int| 0 <= q < n ==> next@[q] == like_match(s@.skip(q), p@.skip(j + 1)),
                next_end == like_match(s@.skip(n as int), p@.skip(j + 1)),
                cur_end == like_match(s@.skip(n as int), p@.skip(j as int)),
                forall|q: int| i <= q < n ==> cur@[q] == like_match(s@.skip(q), p@.skip(j as int)),
            decreases i,
        {
            i -= 1;
            let after_cur = if i + 1 < n {
                cur[i + 1]
            } else {
                cur_end
            };
            let after_next = if i + 1 < n {
                next[i + 1]
            } else {
                next_end
            };
            let v = if pj == '%' {
                next[i] || after_cur
            } else if pj == '_' {
                after_next
            } else {
                ascii_fold_exec(s[i]) == ascii_fold_exec(pj) && after_next
            };
            proof {
                lemma_like_unfold(s@, p@, i as int, j as int);
            }
            cur.set(i, v);
        }
        next = cur;
        next_end = cur_end;
    }
    proof {
        assert(s@.skip(0) =~= s@);
        assert(p@.skip(0) =~= p@);
    }
    if n == 0 {
        next_end
    } else {
        next[0]
    }
}


/// Every character of `s` is ASCII.
pub open spec fn is_ascii_text(s: Seq<char>) -> bool {
    forall|i: int| 0 <= i < s.len() ==> (s[i] as u32) < 128
}

/// `s` with its ASCII upper-case letters lower-cased.
pub open spec fn ascii_lower(s: Seq<char>) -> Seq<char> {
    s.map_values(|c: char| ascii_fold(c))
}

/// Whether `s` holds a `%` or a `_`, which a `LIKE` pattern reads as
/// wildcards.
pub fn has_wildcard(s: &str) -> (r: bool)
    ensures
        r == !no_wildcards(s@),
{
    let v = crate::text::chars_of(s);
    let mut i: usize = 0;
    while i < v.len()
        invariant
            i <= v.len(),
            v@ == s@,
            forall|k: int| 0 <= k < i ==> v@[k] != '%' && v@[k] != '_',
        decreases v.len() - i,
    {
        if v[i] == '%' || v[i] == '_' {
            return true;
        }
        i += 1;
    }
    false
}

/// A text with neither `%` nor `_`: as a pattern it stands for itself.
pub open spec fn no_wildcards(q: Seq<char>) -> bool {
    forall|i: int| 0 <= i < q.len() ==> q[i] != '%' && q[i] != '_'
}

/// `q` occurs in `s` at position `a`, ASCII letters compared without regard
/// to case.
pub open spec fn occurs_at(s: Seq<char>, q: Seq<char>, a: int) -> bool {
    &&& 0 <= a
    &&& a + q.len() <= s.len()
    &&& forall|j: int| 0 <= j < q.len() ==> ascii_fold(#[trigger] s[a + j]) == ascii_fold(q[j])
}

/// `q` occurs somewhere in `s`, ASCII letters compared without regard to case.
pub open spec fn contains_folded(s: Seq<char>, q: Seq<char>) -> bool {
    exists|a: int| occurs_at(s, q, a)
}

proof fn lemma_percent_matches_all(s: Seq<char>)
    ensures
        like_match(s, seq!['%']),
    decreases s.len(),
{
    let p = seq!['%'];
    assert(p.len() == 1 && p[0] == '%');
    assert(p.drop_first() =~= Seq::<char>::empty());
    if s.len() > 0 {
        lemma_percent_matches_all(s.drop_first());
    } else {
        assert(like_match(s, p.drop_first()));
    }
}

proof fn lemma_literal_prefix(t: Seq<char>, q: Seq<char>)
    requires
        no_wildcards(q),
        occurs_at(t, q, 0),
    ensures
        like_match(t, q + seq!['%']),
    decreases q.len(),
{
    if q.len() == 0 {
        assert(q + seq!['%'] =~= seq!['%']);
        lemma_percent_matches_all(t);
    } else {
        let p = q + seq!['%'];
        assert(p[0] == q[0]);
        assert(p.drop_first() =~= q.drop_first() + seq!['%']);
        assert(ascii_fold(t[0int + 0]) == ascii_fold(q[0]));
        assert forall|j: int| 0 <= j < q.drop_first().len() implies ascii_fold(
            #[trigger] t.drop_first()[0int + j],
        ) == ascii_fold(q.drop_first()[j]) by {
            assert(ascii_fold(t[0int + (j + 1)]) == ascii_fold(q[j + 1]));
        }
        lemma_literal_prefix(t.drop_first(), q.drop_first());
    }
}

proof fn lemma_literal_prefix_back(t: Seq<char>, q: Seq<char>, r: Seq<char>)
    requires
        no_wildcards(q),
        like_match(t, q + r),
    ensures
        occurs_at(t, q, 0),
    decreases q.len(),
{
    if q.len() > 0 {
        let p = q + r;
        assert(p[0] == q[0]);
        assert(p.drop_first() =~= q.drop_first() + r);
        lemma_literal_prefix_back(t.drop_first(), q.drop_first(), r);
        assert forall|j: int| 0 <= j < q.len() implies ascii_fold(#[trigger] t[0int + j]) == ascii_fold(
            q[j],
        ) by {
            if j > 0 {
                assert(ascii_fold(t.drop_first()[0int + (j - 1)]) == ascii_fold(q.drop_first()[j - 1]));
            }
        }
    }
}

proof fn lemma_skip_then_match(s: Seq<char>, p: Seq<char>, k: int)
    requires
        0 <= k <= s.len(),
        like_match(s.skip(k), p),
    ensures
        like_match(s, seq!['%'] + p),
    decreases k,
{
    assert((seq!['%'] + p).drop_first() =~= p);
    assert((seq!['%'] + p)[0] == '%');
    if k == 0 {
        assert(s.skip(0) =~= s);
    } else {
        assert(s.drop_first().skip(k - 1) =~= s.skip(k));
        lemma_skip_then_match(s.drop_first(), p, k - 1);
    }
}

proof fn lemma_match_skips(s: Seq<char>, p: Seq<char>) -> (k: int)
    requires
        like_match(s, seq!['%'] + p),
    ensures
        0 <= k <= s.len(),
        like_match(s.skip(k), p),
    decreases s.len(),
{
    assert((seq!['%'] + p).drop_first() =~= p);
    assert((seq!['%'] + p)[0] == '%');
    if like_match(s, p) {
        assert(s.skip(0) =~= s);
        0
    } else {
        let k = lemma_match_skips(s.drop_first(), p);
        assert(s.drop_first().skip(k) =~= s.skip(k + 1));
        k + 1
    }
}

/// The pattern `%q%`, for a `q` without wildcards, matches exactly the texts
/// in which `q` occurs, ASCII letters compared without regard to case.
pub proof fn law_like_contains(s: Seq<char>, q: Seq<char>)
    requires
        no_wildcards(q),
    ensures
        like_match(s, seq!['%'] + q + seq!['%']) <==> contains_folded(s, q),
{
    let p = seq!['%'] + q + seq!['%'];
    assert(p =~= seq!['%'] + (q + seq!['%']));
    if contains_folded(s, q) {
        let a = choose|a: int| occurs_at(s, q, a);
        let t = s.skip(a);
        assert forall|j: int| 0 <= j < q.len() implies ascii_fold(#[trigger] t[0int + j]) == ascii_fold(
            q[j],
        ) by {
            assert(ascii_fold(s[a + j]) == ascii_fold(q[j]));
        }
        lemma_literal_prefix(t, q);
        lemma_skip_then_match(s, q + seq!['%'], a);
    }
    if like_match(s, p) {
        let k = lemma_match_skips(s, q + seq!['%']);
        lemma_literal_prefix_back(s.skip(k), q, seq!['%']);
        assert forall|j: int| 0 <= j < q.len() implies ascii_fold(#[trigger] s[k + j]) == ascii_fold(
            q[j],
        ) by {
            assert(ascii_fold(s.skip(k)[0int + j]) == ascii_fold(q[j]));
        }
        assert(occurs_at(s, q, k));
    }
}

/// Finding an ASCII-lower-cased `q` is finding `q`: matching ignores ASCII
/// case, and lower-casing adds no wildcard.
pub proof fn lemma_ascii_lower_search(s: Seq<char>, q: Seq<char>)
    requires
        no_wildcards(q),
    ensures
        no_wildcards(ascii_lower(q)),
        contains_folded(s, ascii_lower(q)) <==> contains_folded(s, q),
{
    let l = ascii_lower(q);
    assert forall|j: int| 0 <= j < q.len() implies ascii_fold(#[trigger] l[j]) == ascii_fold(q[j]) by {
        let c = q[j];
        if 'A' <= c <= 'Z' {
            assert(('a' as u32) <= (l[j] as u32) <= ('z' as u32));
        }
    }
    assert forall|j: int| 0 <= j < l.len() implies l[j] != '%' && l[j] != '_' by {
        assert(q[j] != '%' && q[j] != '_');
    }
    if contains_folded(s, l) {
        let a = choose|a: int| occurs_at(s, l, a);
        assert forall|j: int| 0 <= j < q.len() implies ascii_fold(#[trigger] s[a + j]) == ascii_fold(q[j]) by {
            assert(ascii_fold(s[a + j]) == ascii_fold(l[j]));
        }
        assert(occurs_at(s, q, a));
    }
    if contains_folded(s, q) {
        let a = choose|a: int| occurs_at(s, q, a);
        assert forall|j: int| 0 <= j < l.len() implies ascii_fold(#[trigger] s[a + j]) == ascii_fold(l[j]) by {
            assert(ascii_fold(s[a + j]) == ascii_fold(q[j]));
        }
        assert(occurs_at(s, l, a));
    }
}

} // verus!
