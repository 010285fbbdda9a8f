//! The rank-sort kernel: each lane computes where its element belongs and
//! writes it there, without synchronisation between lanes.
//!
//! `lane_rank`, `run_kernel` and `rank_sort` state on the host, lane by lane,
//! what the WGSL kernel of `crate::shader` computes on the device; the device
//! runs that kernel, not these functions. The lemmas give the properties of
//! its output: a permutation of the input, in order, stable, and unchanged
//! when sorted again.
use vstd::prelude::*;
use vstd::relations::injective_on;
use vstd::set_lib::*;

use crate::layout::{workgroup_count, WORKGROUP_SIZE};

verus! {

/// An element type that the kernel compares with its native total order,
/// seen through an integer key.
pub trait RankKey: Copy + Sized {
    /// The element's position in the native order.
    spec fn key(&self) -> int;

    /// Whether `self` comes before `other`.
    fn key_lt(&self, other: &Self) -> (r: bool)
        ensures
            r == (self.key() < other.key()),
    ;

    /// Whether `self` and `other` hold the same place in the order.
    fn key_eq(&self, other: &Self) -> (r: bool)
        ensures
            r == (self.key() == other.key()),
    ;
}

impl RankKey for u32 {
    open spec fn key(&self) -> int {
        *self as int
    }

    fn key_lt(&self, other: &u32) -> (r: bool) {
        *self < *other
    }

    fn key_eq(&self, other: &u32) -> (r: bool) {
        *self == *other
    }
}

impl RankKey for i32 {
    open spec fn key(&self) -> int {
        *self as int
    }

    fn key_lt(&self, other: &i32) -> (r: bool) {
        *self < *other
    }

    fn key_eq(&self, other: &i32) -> (r: bool) {
        *self == *other
    }
}

/// Number of positions `j < hi` of `s` whose key is below `x`.
pub open spec fn count_below<T: RankKey>(s: Seq<T>, x: int, hi: int) -> nat
    decreases hi,
{
    if hi <= 0 {
        0
    } else {
        count_below(s, x, hi - 1) + if s[hi - 1].key() < x { 1nat } else { 0nat }
    }
}

/// Number of positions `j < hi` of `s` whose key equals `x`.
pub open spec fn count_equal<T: RankKey>(s: Seq<T>, x: int, hi: int) -> nat
    decreases hi,
{
    if hi <= 0 {
        0
    } else {
        count_equal(s, x, hi - 1) + if s[hi - 1].key() == x { 1nat } else { 0nat }
    }
}

/// The output position of element `i`: the elements below it, plus the equal
/// elements that come before it.
pub open spec fn rank<T: RankKey>(s: Seq<T>, i: int) -> int {
    (count_below(s, s[i].key(), s.len() as int) + count_equal(s, s[i].key(), i)) as int
}

/// Keys never decrease along `s`.
pub open spec fn is_sorted<T: RankKey>(s: Seq<T>) -> bool {
    forall|p: int, q: int| 0 <= p < q < s.len() ==> #[trigger] s[p].key() <= #[trigger] s[q].key()
}

/// What the kernel leaves in the output: position `p` holds the element whose
/// rank is `p`.
pub open spec fn rank_sorted<T: RankKey>(s: Seq<T>) -> Seq<T> {
    Seq::new(s.len(), |p: int| s[choose|i: int| 0 <= i < s.len() && rank(s, i) == p])
}

proof fn lemma_counts_bounded<T: RankKey>(s: Seq<T>, x: int, hi: int)
    requires
        0 <= hi <= s.len(),
    ensures
        count_below(s, x, hi) + count_equal(s, x, hi) <= hi,
    decreases hi,
{
    if hi > 0 {
        lemma_counts_bounded(s, x, hi - 1);
    }
}

proof fn lemma_count_equal_grows<T: RankKey>(s: Seq<T>, x: int, a: int, b: int)
    requires
        0 <= a < b <= s.len(),
        s[a].key() == x,
    ensures
        count_equal(s, x, a) + 1 <= count_equal(s, x, b),
    decreases b,
{
    if b > a + 1 {
        lemma_count_equal_grows(s, x, a, b - 1);
    }
}

proof fn lemma_below_gap<T: RankKey>(s: Seq<T>, x: int, y: int, hi: int)
    requires
        0 <= hi <= s.len(),
        x < y,
    ensures
        count_below(s, x, hi) + count_equal(s, x, hi) <= count_below(s, y, hi),
    decreases hi,
{
    if hi > 0 {
        lemma_below_gap(s, x, y, hi - 1);
    }
}

/// Every rank is an index of `s`.
pub proof fn lemma_rank_in_range<T: RankKey>(s: Seq<T>, i: int)
    requires
        0 <= i < s.len(),
    ensures
        0 <= rank(s, i) < s.len(),
{
    let x = s[i].key();
    lemma_count_equal_grows(s, x, i, s.len() as int);
    lemma_counts_bounded(s, x, s.len() as int);
}

/// A smaller key, or an equal key at an earlier index, gets a smaller rank.
pub proof fn lemma_rank_order<T: RankKey>(s: Seq<T>, i: int, j: int)
    requires
        0 <= i < s.len(),
        0 <= j < s.len(),
        s[i].key() < s[j].key() || (s[i].key() == s[j].key() && i < j),
    ensures
        rank(s, i) < rank(s, j),
{
    let x = s[i].key();
    let y = s[j].key();
    let n = s.len() as int;
    if x == y {
        lemma_count_equal_grows(s, x, i, j);
    } else {
        lemma_count_equal_grows(s, x, i, n);
        lemma_below_gap(s, x, y, n);
    }
}

/// Stability: of two elements with equal values, the earlier one is placed
/// first.
pub proof fn lemma_rank_stable<T: RankKey>(s: Seq<T>, i: int, j: int)
    requires
        0 <= i < j < s.len(),
        s[i] == s[j],
    ensures
        rank(s, i) < rank(s, j),
{
    lemma_rank_order(s, i, j);
}

/// No two lanes write the same output position.
pub proof fn lemma_rank_injective<T: RankKey>(s: Seq<T>, i: int, j: int)
    requires
        0 <= i < s.len(),
        0 <= j < s.len(),
        i != j,
    ensures
        rank(s, i) != rank(s, j),
{
    if s[i].key() < s[j].key() || (s[i].key() == s[j].key() && i < j) {
        lemma_rank_order(s, i, j);
    } else {
        lemma_rank_order(s, j, i);
    }
}

/// Every output position is written by some lane.
pub proof fn lemma_rank_onto<T: RankKey>(s: Seq<T>, p: int)
    requires
        0 <= p < s.len(),
    ensures
        exists|i: int| 0 <= i < s.len() && rank(s, i) == p,
{
    let n = s.len() as int;
    let idx = set_int_range(0, n);
    let f = |i: int| rank(s, i);
    lemma_int_range(0, n);
    assert(injective_on(f, idx)) by {
        assert forall|a: int, b: int| idx.contains(a) && idx.contains(b) && #[trigger] f(a) == #[trigger] f(b)
            implies a == b by {
            if a != b {
                lemma_rank_injective(s, a, b);
            }
        }
    }
    lemma_map_size(idx, idx.map(f), f);
    assert(idx.map(f).subset_of(idx)) by {
        assert forall|q: int| #[trigger] idx.map(f).contains(q) implies idx.contains(q) by {
            let i = choose|i: int| idx.contains(i) && f(i) == q;
            lemma_rank_in_range(s, i);
        }
    }
    lemma_subset_equality(idx.map(f), idx);
    assert(idx.map(f).contains(p));
}


/// `t` holds the elements of `s` moved by `f`, which sends distinct indices of
/// `s` to distinct indices of `t`.
pub open spec fn placed_by<T>(s: Seq<T>, t: Seq<T>, f: spec_fn(int) -> int) -> bool {
    &&& t.len() == s.len()
    &&& forall|i: int| 0 <= i < s.len() ==> 0 <= #[trigger] f(i) < s.len() && t[f(i)] == s[i]
    &&& forall|i: int, j: int| 0 <= i < s.len() && 0 <= j < s.len() && i != j ==> #[trigger] f(i) != #[trigger] f(j)
}

proof fn lemma_placed_same_multiset<T>(s: Seq<T>, t: Seq<T>, f: spec_fn(int) -> int)
    requires
        placed_by(s, t, f),
    ensures
        t.to_multiset() =~= s.to_multiset(),
    decreases s.len(),
{
    broadcast use vstd::seq_lib::group_to_multiset_ensures;

    if s.len() > 0 {
        let n = s.len() - 1;
        let last = f(n);
        let s1 = s.drop_last();
        let t1 = t.remove(last);
        let g = |i: int| if f(i) < last { f(i) } else { f(i) - 1 };
        assert forall|i: int| 0 <= i < s1.len() implies 0 <= #[trigger] g(i) < s1.len() && t1[g(i)] == s1[i] by {
            assert(f(i) != f(n));
        }
        assert forall|i: int, j: int| 0 <= i < s1.len() && 0 <= j < s1.len() && i != j
            implies #[trigger] g(i) != #[trigger] g(j) by {
            assert(f(i) != f(n));
            assert(f(j) != f(n));
        }
        lemma_placed_same_multiset(s1, t1, g);
        assert(s1.push(s[n]) =~= s);
        assert(t1.to_multiset() =~= t.to_multiset().remove(s[n]));
        assert(t.to_multiset().count(s[n]) > 0) by {
            assert(t.contains(t[last]));
        }
    }
}


/// Each element of `s` lands at its rank.
pub proof fn lemma_rank_sorted_places<T: RankKey>(s: Seq<T>)
    ensures
        rank_sorted(s).len() == s.len(),
        forall|i: int| 0 <= i < s.len() ==> rank_sorted(s)[#[trigger] rank(s, i)] == s[i],
{
    assert forall|i: int| 0 <= i < s.len() implies rank_sorted(s)[#[trigger] rank(s, i)] == s[i] by {
        let p = rank(s, i);
        lemma_rank_in_range(s, i);
        let c = choose|c: int| 0 <= c < s.len() && rank(s, c) == p;
        if c != i {
            lemma_rank_injective(s, c, i);
        }
    }
}

/// The kernel's output holds the same multiset of values as its input.
pub proof fn lemma_sort_is_permutation<T: RankKey>(s: Seq<T>)
    ensures
        rank_sorted(s).to_multiset() =~= s.to_multiset(),
{
    let f = |i: int| rank(s, i);
    lemma_rank_sorted_places(s);
    assert forall|i: int| 0 <= i < s.len() implies 0 <= #[trigger] f(i) < s.len() && rank_sorted(s)[f(i)] == s[i] by {
        lemma_rank_in_range(s, i);
    }
    assert forall|i: int, j: int| 0 <= i < s.len() && 0 <= j < s.len() && i != j
        implies #[trigger] f(i) != #[trigger] f(j) by {
        lemma_rank_injective(s, i, j);
    }
    lemma_placed_same_multiset(s, rank_sorted(s), f);
}

/// The kernel's output never decreases.
pub proof fn lemma_sort_is_sorted<T: RankKey>(s: Seq<T>)
    ensures
        is_sorted(rank_sorted(s)),
{
    let t = rank_sorted(s);
    lemma_rank_sorted_places(s);
    assert forall|p: int, q: int| 0 <= p < q < t.len() implies #[trigger] t[p].key() <= #[trigger] t[q].key() by {
        lemma_rank_onto(s, p);
        lemma_rank_onto(s, q);
        let i = choose|i: int| 0 <= i < s.len() && rank(s, i) == p;
        let j = choose|j: int| 0 <= j < s.len() && rank(s, j) == q;
        assert(t[p] == s[i]);
        assert(t[q] == s[j]);
        if s[j].key() < s[i].key() {
            lemma_rank_order(s, j, i);
        }
    }
}

proof fn lemma_increasing_at_least<T: RankKey>(t: Seq<T>, k: int)
    requires
        0 <= k < t.len(),
        forall|i: int, j: int| 0 <= i < j < t.len() ==> #[trigger] rank(t, i) < #[trigger] rank(t, j),
    ensures
        rank(t, k) >= k,
    decreases k,
{
    if k > 0 {
        lemma_increasing_at_least(t, k - 1);
        assert(rank(t, k - 1) < rank(t, k));
    } else {
        lemma_rank_in_range(t, k);
    }
}

proof fn lemma_increasing_at_most<T: RankKey>(t: Seq<T>, k: int)
    requires
        0 <= k < t.len(),
        forall|i: int, j: int| 0 <= i < j < t.len() ==> #[trigger] rank(t, i) < #[trigger] rank(t, j),
    ensures
        rank(t, k) <= k,
    decreases t.len() - k,
{
    if k < t.len() - 1 {
        lemma_increasing_at_most(t, k + 1);
        assert(rank(t, k) < rank(t, k + 1));
    } else {
        lemma_rank_in_range(t, k);
    }
}

/// On input that is already sorted, every element keeps its place.
pub proof fn lemma_sorted_rank_is_identity<T: RankKey>(t: Seq<T>)
    requires
        is_sorted(t),
    ensures
        forall|i: int| 0 <= i < t.len() ==> #[trigger] rank(t, i) == i,
{
    assert forall|i: int, j: int| 0 <= i < j < t.len() implies #[trigger] rank(t, i) < #[trigger] rank(t, j) by {
        assert(t[i].key() <= t[j].key());
        lemma_rank_order(t, i, j);
    }
    assert forall|i: int| 0 <= i < t.len() implies #[trigger] rank(t, i) == i by {
        lemma_increasing_at_least(t, i);
        lemma_increasing_at_most(t, i);
    }
}

/// Sorting what is already sorted changes nothing.
pub proof fn lemma_sort_of_sorted<T: RankKey>(t: Seq<T>)
    requires
        is_sorted(t),
    ensures
        rank_sorted(t) == t,
{
    lemma_sorted_rank_is_identity(t);
    lemma_rank_sorted_places(t);
    assert forall|p: int| 0 <= p < t.len() implies rank_sorted(t)[p] == t[p] by {
        assert(rank(t, p) == p);
    }
    assert(rank_sorted(t) =~= t);
}

/// Sorting twice gives what sorting once gives.
pub proof fn lemma_sort_idempotent<T: RankKey>(s: Seq<T>)
    ensures
        rank_sorted(rank_sorted(s)) == rank_sorted(s),
{
    lemma_sort_is_sorted(s);
    lemma_sort_of_sorted(rank_sorted(s));
}


/// One lane of the kernel. A lane at or past `length` does nothing; any other
/// lane scans the first `length` elements and returns where its own element
/// goes. Elements past `length` are padding and are never read.
pub fn lane_rank<T: RankKey>(input: &Vec<T>, length: u32, lane: u64) -> (r: Option<usize>)
    requires
        length <= input.len(),
    ensures
        lane >= length ==> r is None,
        lane < length ==> r == Some(rank(input@.take(length as int), lane as int) as usize),
{
    if lane >= length as u64 {
        return None;
    }
    let ghost s = input@.take(length as int);
    let i = lane as usize;
    let n = length as usize;
    let v = input[i];
    let mut below: usize = 0;
    let mut equal_before: usize = 0;
    let mut j: usize = 0;
    while j < n
        invariant
            i < n,
            n == length,
            n <= input.len(),
            s == input@.take(n as int),
            v == s[i as int],
            j <= n,
            below == count_below(s, v.key(), j as int),
            equal_before == count_equal(s, v.key(), if j < i { j as int } else { i as int }),
        decreases n - j,
    {
        proof {
            lemma_counts_bounded(s, v.key(), j as int + 1);
            lemma_counts_bounded(s, v.key(), i as int);
        }
        let w = input[j];
        assert(w == s[j as int]);
        if w.key_eq(&v) && j < i {
            equal_before = equal_before + 1;
        }
        if w.key_lt(&v) {
            below = below + 1;
        }
        j = j + 1;
    }
    proof {
        lemma_rank_in_range(s, i as int);
    }
    Some(below + equal_before)
}

/// Runs `groups` work-groups of the kernel over `input`, of which the first
/// `length` elements are data. The data part of the result is `input`'s data
/// sorted by rank; past it the result keeps `input`'s padding.
pub fn run_kernel<T: RankKey>(input: &Vec<T>, length: u32, groups: u32) -> (r: Vec<T>)
    requires
        length <= input.len(),
        groups as int * WORKGROUP_SIZE as int >= length as int,
    ensures
        r@.len() == input@.len(),
        r@.take(length as int) == rank_sorted(input@.take(length as int)),
        r@.skip(length as int) == input@.skip(length as int),
{
    let ghost s = input@.take(length as int);
    let mut out: Vec<T> = Vec::new();
    let mut k: usize = 0;
    while k < input.len()
        invariant
            k <= input.len(),
            out@ == input@.take(k as int),
        decreases input.len() - k,
    {
        out.push(input[k]);
        k = k + 1;
        assert(out@ =~= input@.take(k as int));
    }
    assert(out@ =~= input@);
    let lanes: u64 = groups as u64 * WORKGROUP_SIZE as u64;
    let mut lane: u64 = 0;
    while lane < lanes
        invariant
            lanes >= length,
            length <= input.len(),
            s == input@.take(length as int),
            out@.len() == input@.len(),
            forall|i: int| 0 <= i < lane && i < length ==> out@[#[trigger] rank(s, i)] == s[i],
            forall|p: int| length <= p < input@.len() ==> out@[p] == input@[p],
        decreases lanes - lane,
    {
        match lane_rank(input, length, lane) {
            Some(p) => {
                proof {
                    lemma_rank_in_range(s, lane as int);
                    assert forall|i: int| 0 <= i < lane && i < length implies rank(s, i) != rank(s, lane as int) by {
                        lemma_rank_injective(s, i, lane as int);
                    }
                }
                let v = input[lane as usize];
                out.set(p, v);
                assert forall|i: int| 0 <= i < lane + 1 && i < length implies out@[#[trigger] rank(s, i)] == s[i] by {
                    lemma_rank_in_range(s, i);
                }
            },
            None => {},
        }
        lane = lane + 1;
    }
    proof {
        lemma_rank_sorted_places(s);
        assert forall|p: int| 0 <= p < length implies out@.take(length as int)[p] == rank_sorted(s)[p] by {
            lemma_rank_onto(s, p);
            let i = choose|i: int| 0 <= i < s.len() && rank(s, i) == p;
            assert(out@[rank(s, i)] == s[i]);
        }
        assert(out@.take(length as int) =~= rank_sorted(s));
        assert(out@.skip(length as int) =~= input@.skip(length as int));
    }
    out
}

/// Sorts `input` by running the kernel over it with one lane per element.
pub fn rank_sort<T: RankKey>(input: &Vec<T>) -> (r: Vec<T>)
    requires
        input.len() <= u32::MAX,
    ensures
        r@ == rank_sorted(input@),
{
    let length = input.len() as u32;
    let groups = workgroup_count(length);
    let r = run_kernel(input, length, groups);
    assert(input@.take(length as int) =~= input@);
    assert(r@.take(length as int) =~= r@);
    r
}

} // verus!
