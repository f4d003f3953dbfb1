//! Sort orders of the music library and a sort that follows them.
use vstd::prelude::*;
use vstd::multiset::Multiset;

verus! {

broadcast use vstd::multiset::group_multiset_axioms;

/// The sort orders that listings of tracks and albums offer.
#[derive(PartialEq, Eq, Structural, Clone, Copy, Debug)]
pub enum SortMode {
    /// By name, ascending.
    NameAsc,
    /// By name, descending.
    NameDesc,
    /// By play count ascending, then by name ascending.
    PlayCountAsc,
    /// By play count descending, then by name ascending.
    PlayCountDesc,
}

/// Values that can be listed in each [`SortMode`]: `mode_le` is a total
/// preorder for every mode, and `le_by_mode` decides it.
pub trait ModeOrdered: Sized {
    spec fn mode_le(self, other: Self, mode: SortMode) -> bool;

    fn le_by_mode(&self, other: &Self, mode: SortMode) -> (r: bool)
        ensures
            r == self.mode_le(*other, mode),
    ;

    proof fn lemma_mode_total(a: Self, b: Self, mode: SortMode)
        ensures
            a.mode_le(b, mode) || b.mode_le(a, mode),
    ;

    proof fn lemma_mode_trans(a: Self, b: Self, c: Self, mode: SortMode)
        requires
            a.mode_le(b, mode),
            b.mode_le(c, mode),
        ensures
            a.mode_le(c, mode),
    ;
}

/// `s` is listed in the order `mode`.
pub open spec fn sorted_by_mode<T: ModeOrdered>(s: Seq<T>, mode: SortMode) -> bool {
    forall|i: int, j: int| 0 <= i < j < s.len() ==> #[trigger] s[i].mode_le(#[trigger] s[j], mode)
}

/// First position in the sorted `r` at which `x` can be inserted after every
/// element that comes no later than it.
fn insertion_point<T: ModeOrdered>(r: &Vec<T>, x: &T, mode: SortMode) -> (p: usize)
    requires
        sorted_by_mode(r@, mode),
    ensures
        p <= r.len(),
        forall|i: int| 0 <= i < p ==> #[trigger] r@[i].mode_le(*x, mode),
        forall|i: int| p <= i < r.len() ==> !(#[trigger] r@[i].mode_le(*x, mode)),
{
    let mut lo: usize = 0;
    let mut hi: usize = r.len();
    while lo < hi
        invariant
            lo <= hi <= r.len(),
            sorted_by_mode(r@, mode),
            forall|i: int| 0 <= i < lo ==> #[trigger] r@[i].mode_le(*x, mode),
            forall|i: int| hi <= i < r.len() ==> !(#[trigger] r@[i].mode_le(*x, mode)),
        decreases hi - lo,
    {
        let mid = lo + (hi - lo) / 2;
        if r[mid].le_by_mode(x, mode) {
            proof {
                assert forall|i: int| 0 <= i < mid + 1 implies #[trigger] r@[i].mode_le(*x, mode) by {
                    if i < mid {
                        assert(r@[i].mode_le(r@[mid as int], mode));
                        T::lemma_mode_trans(r@[i], r@[mid as int], *x, mode);
                    }
                }
            }
            lo = mid + 1;
        } else {
            proof {
                assert forall|i: int| mid <= i < r.len() implies !(#[trigger] r@[i].mode_le(*x, mode)) by {
                    if i > mid && r@[i].mode_le(*x, mode) {
                        assert(r@[mid as int].mode_le(r@[i], mode));
                        T::lemma_mode_trans(r@[mid as int], r@[i], *x, mode);
                    }
                }
            }
            hi = mid;
        }
    }
    lo
}

/// Sorts `v` in the order `mode`: the result holds the same elements,
/// each as often as `v` does.
pub fn sort_by_mode<T: ModeOrdered>(v: Vec<T>, mode: SortMode) -> (r: Vec<T>)
    ensures
        r@.to_multiset() == v@.to_multiset(),
        sorted_by_mode(r@, mode),
{
    let ghost initial = v@;
    let mut input = v;
    let mut r: Vec<T> = Vec::new();
    proof {
        lemma_empty_multiset(r@);
    }
    while input.len() > 0
        invariant
            r@.to_multiset().add(input@.to_multiset()) == initial.to_multiset(),
            sorted_by_mode(r@, mode),
        decreases input.len(),
    {
        let ghost before = input@;
        let ghost r_before = r@;
        let x = input.pop().unwrap();
        proof {
            assert(input@.push(x) =~= before);
            vstd::seq_lib::to_multiset_build(input@, x);
        }
        let p = insertion_point(&r, &x, mode);
        r.insert(p, x);
        proof {
            vstd::seq_lib::to_multiset_insert(r_before, p as int, x);
            assert(r@.to_multiset().add(input@.to_multiset()) =~= initial.to_multiset());
            assert forall|i: int, j: int| 0 <= i < j < r@.len() implies #[trigger] r@[i].mode_le(
                #[trigger] r@[j],
                mode,
            ) by {
                if j < p {
                    assert(r@[i] == r_before[i] && r@[j] == r_before[j]);
                } else if j == p {
                    assert(r@[i] == r_before[i]);
                } else if i == p {
                    assert(r@[j] == r_before[j - 1]);
                    T::lemma_mode_total(r_before[j - 1], x, mode);
                } else if i < p {
                    assert(r@[i] == r_before[i] && r@[j] == r_before[j - 1]);
                    assert(r_before[i].mode_le(r_before[j - 1], mode));
                } else {
                    assert(r@[i] == r_before[i - 1] && r@[j] == r_before[j - 1]);
                    assert(r_before[i - 1].mode_le(r_before[j - 1], mode));
                }
            }
        }
    }
    proof {
        lemma_empty_multiset(input@);
        assert(r@.to_multiset() =~= r@.to_multiset().add(input@.to_multiset()));
    }
    r
}

proof fn lemma_empty_multiset<A>(s: Seq<A>)
    requires
        s.len() == 0,
    ensures
        s.to_multiset() =~= Multiset::empty(),
{
    assert forall|a: A| s.to_multiset().count(a) == 0 by {
        vstd::seq_lib::to_multiset_contains(s, a);
    }
}

/// Sequences with the same elements keep the same elements under a map.
pub proof fn lemma_map_preserves_multiset<A, B>(a: Seq<A>, b: Seq<A>, f: spec_fn(A) -> B)
    requires
        a.to_multiset() == b.to_multiset(),
    ensures
        a.map_values(f).to_multiset() == b.map_values(f).to_multiset(),
    decreases a.len(),
{
    vstd::seq_lib::to_multiset_len(a);
    vstd::seq_lib::to_multiset_len(b);
    if a.len() == 0 {
        assert(a.map_values(f) =~= Seq::<B>::empty());
        assert(b.map_values(f) =~= Seq::<B>::empty());
    } else {
        let x = a.last();
        let a0 = a.drop_last();
        assert(a0.push(x) =~= a);
        vstd::seq_lib::to_multiset_build(a0, x);
        vstd::seq_lib::to_multiset_contains(b, x);
        let k = choose|k: int| 0 <= k < b.len() && b[k] == x;
        let b0 = b.remove(k);
        vstd::seq_lib::to_multiset_remove(b, k);
        assert(a0.to_multiset() =~= b0.to_multiset());
        lemma_map_preserves_multiset(a0, b0, f);
        assert(a.map_values(f) =~= a0.map_values(f).push(f(x)));
        vstd::seq_lib::to_multiset_build(a0.map_values(f), f(x));
        assert(b.map_values(f) =~= b0.map_values(f).insert(k, f(x)));
        vstd::seq_lib::to_multiset_insert(b0.map_values(f), k, f(x));
    }
}

} // verus!
