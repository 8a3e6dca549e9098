//! Stable ordering by a key. The position of an item in the stable order is
//! its rank: the number of items whose key is strictly smaller, plus the
//! number of earlier items with an equal key. Sorting places each item at its
//! rank.

use vstd::prelude::*;
use vstd::relations::injective_on;
use vstd::set_lib::*;
use crate::text::{same_text, text_less, text_lt, text_order};

verus! {

/// `less` is a strict total order.
pub open spec fn strict_total<T>(less: spec_fn(T, T) -> bool) -> bool {
    &&& forall|a: T| !#[trigger] less(a, a)
    &&& forall|a: T, b: T, c: T| #[trigger] less(a, b) && #[trigger] less(b, c) ==> less(a, c)
    &&& forall|a: T, b: T| a != b ==> #[trigger] less(a, b) || less(b, a)
}

/// Position `j` comes before position `i` in the stable order of `keys`.
pub open spec fn goes_before<T>(keys: Seq<T>, less: spec_fn(T, T) -> bool, j: int, i: int) -> bool {
    less(keys[j], keys[i]) || (keys[j] == keys[i] && j < i)
}

/// How many positions below `m` come before position `i`.
pub open spec fn count_before<T>(keys: Seq<T>, less: spec_fn(T, T) -> bool, i: int, m: int) -> nat
    decreases m,
{
    if m <= 0 {
        0
    } else {
        count_before(keys, less, i, m - 1) + if goes_before(keys, less, m - 1, i) {
            1nat
        } else {
            0nat
        }
    }
}

/// The place of position `i` in the stable order of `keys`.
pub open spec fn rank<T>(keys: Seq<T>, less: spec_fn(T, T) -> bool, i: int) -> nat {
    count_before(keys, less, i, keys.len() as int)
}

/// The items of `s` in the stable order of their keys `keys`.
pub open spec fn stable_sorted<T, U>(s: Seq<U>, keys: Seq<T>, less: spec_fn(T, T) -> bool) -> Seq<U> {
    Seq::new(
        s.len(),
        |k: int| s[choose|i: int| 0 <= i < s.len() && rank(keys, less, i) == k],
    )
}

/// Order on integer keys: descending when `desc`, ascending otherwise.
pub open spec fn key_less(desc: bool) -> spec_fn(i64, i64) -> bool {
    |a: i64, b: i64| if desc { a > b } else { a < b }
}

pub proof fn lemma_key_less_total(desc: bool)
    ensures
        strict_total(key_less(desc)),
{
}

proof fn lemma_count_bound<T>(keys: Seq<T>, less: spec_fn(T, T) -> bool, i: int, m: int)
    requires
        strict_total(less),
        0 <= i < keys.len(),
        0 <= m <= keys.len(),
    ensures
        count_before(keys, less, i, m) <= m,
        i < m ==> count_before(keys, less, i, m) < m,
    decreases m,
{
    if m > 0 {
        lemma_count_bound(keys, less, i, m - 1);
        assert(!less(keys[i], keys[i]));
    }
}

proof fn lemma_count_grows<T>(keys: Seq<T>, less: spec_fn(T, T) -> bool, i: int, j: int, m: int)
    requires
        strict_total(less),
        0 <= i < keys.len(),
        0 <= j < keys.len(),
        goes_before(keys, less, i, j),
        0 <= m <= keys.len(),
    ensures
        count_before(keys, less, i, m) <= count_before(keys, less, j, m),
        i < m ==> count_before(keys, less, i, m) < count_before(keys, less, j, m),
    decreases m,
{
    if m > 0 {
        lemma_count_grows(keys, less, i, j, m - 1);
        let p = m - 1;
        assert(!less(keys[i], keys[i]));
        if goes_before(keys, less, p, i) {
            if less(keys[p], keys[i]) && less(keys[i], keys[j]) {
                assert(less(keys[p], keys[j]));
            }
            assert(goes_before(keys, less, p, j));
        }
    }
}

proof fn lemma_goes_before_total<T>(keys: Seq<T>, less: spec_fn(T, T) -> bool, i: int, j: int)
    requires
        strict_total(less),
        0 <= i < keys.len(),
        0 <= j < keys.len(),
        i != j,
    ensures
        goes_before(keys, less, i, j) || goes_before(keys, less, j, i),
{
    if keys[i] != keys[j] {
        assert(less(keys[i], keys[j]) || less(keys[j], keys[i]));
    }
}

/// Each position has its own rank, below the number of keys, and the order
/// of the ranks is the stable order.
pub proof fn lemma_rank_distinct<T>(keys: Seq<T>, less: spec_fn(T, T) -> bool, i: int, j: int)
    requires
        strict_total(less),
        0 <= i < keys.len(),
        0 <= j < keys.len(),
    ensures
        rank(keys, less, i) < keys.len(),
        goes_before(keys, less, i, j) ==> rank(keys, less, i) < rank(keys, less, j),
        i != j ==> rank(keys, less, i) != rank(keys, less, j),
{
    lemma_count_bound(keys, less, i, keys.len() as int);
    if goes_before(keys, less, i, j) {
        lemma_count_grows(keys, less, i, j, keys.len() as int);
    }
    if i != j {
        lemma_goes_before_total(keys, less, i, j);
        if goes_before(keys, less, i, j) {
            lemma_count_grows(keys, less, i, j, keys.len() as int);
        } else {
            lemma_count_grows(keys, less, j, i, keys.len() as int);
        }
    }
}

/// Every place below the number of keys is the rank of some position.
pub proof fn lemma_rank_onto<T>(keys: Seq<T>, less: spec_fn(T, T) -> bool, k: int)
    requires
        strict_total(less),
        0 <= k < keys.len(),
    ensures
        exists|i: int| 0 <= i < keys.len() && rank(keys, less, i) == k,
{
    let n = keys.len() as int;
    let x = set_int_range(0, n);
    let f = |i: int| rank(keys, less, i) as int;
    lemma_int_range(0, n);
    assert forall|a: int, b: int| x.contains(a) && x.contains(b) && #[trigger] f(a) == #[trigger] f(b) implies a
        == b by {
        lemma_rank_distinct(keys, less, a, b);
    }
    assert(injective_on(f, x));
    let y = x.map(f);
    lemma_map_size(x, y, f);
    assert forall|b: int| y.contains(b) implies x.contains(b) by {
        let a = choose|a: int| x.contains(a) && f(a) == b;
        lemma_rank_distinct(keys, less, a, a);
    }
    assert(y.subset_of(x));
    lemma_subset_equality(y, x);
    assert(x.contains(k));
    assert(y.contains(k));
    let a = choose|a: int| x.contains(a) && f(a) == k;
    assert(0 <= a < n && rank(keys, less, a) == k);
}

/// In the stable order, each item stands at its rank.
pub proof fn lemma_sorted_at<T, U>(s: Seq<U>, keys: Seq<T>, less: spec_fn(T, T) -> bool, i: int)
    requires
        strict_total(less),
        s.len() == keys.len(),
        0 <= i < s.len(),
    ensures
        rank(keys, less, i) < s.len(),
        stable_sorted(s, keys, less)[rank(keys, less, i) as int] == s[i],
{
    let k = rank(keys, less, i) as int;
    lemma_rank_distinct(keys, less, i, i);
    let j = choose|j: int| 0 <= j < s.len() && rank(keys, less, j) == k;
    assert(0 <= j < s.len() && rank(keys, less, j) == k) by {
        lemma_rank_onto(keys, less, k);
    }
    lemma_rank_distinct(keys, less, i, j);
}

/// The stable order is ordered: no item has a key below that of an item
/// placed before it.
pub proof fn law_stable_sorted_ordered<T>(keys: Seq<T>, less: spec_fn(T, T) -> bool, a: int, b: int)
    requires
        strict_total(less),
        0 <= a < b < keys.len(),
    ensures
        !less(stable_sorted(keys, keys, less)[b], stable_sorted(keys, keys, less)[a]),
{
    let i = choose|i: int| 0 <= i < keys.len() && rank(keys, less, i) == a;
    let j = choose|j: int| 0 <= j < keys.len() && rank(keys, less, j) == b;
    assert(0 <= i < keys.len() && rank(keys, less, i) == a) by {
        lemma_rank_onto(keys, less, a);
    }
    assert(0 <= j < keys.len() && rank(keys, less, j) == b) by {
        lemma_rank_onto(keys, less, b);
    }
    assert(stable_sorted(keys, keys, less)[a] == keys[i]);
    assert(stable_sorted(keys, keys, less)[b] == keys[j]);
    lemma_rank_distinct(keys, less, j, i);
}

/// The positions below `m` that come before position `i`.
pub open spec fn before_set<T>(keys: Seq<T>, less: spec_fn(T, T) -> bool, i: int, m: int) -> Set<int> {
    Set::new(|j: int| 0 <= j < m && goes_before(keys, less, j, i))
}

proof fn lemma_count_is_size<T>(keys: Seq<T>, less: spec_fn(T, T) -> bool, i: int, m: int)
    requires
        0 <= m,
    ensures
        before_set(keys, less, i, m).finite(),
        count_before(keys, less, i, m) == before_set(keys, less, i, m).len(),
    decreases m,
{
    if m == 0 {
        assert(before_set(keys, less, i, 0) =~= Set::<int>::empty());
    } else {
        lemma_count_is_size(keys, less, i, m - 1);
        let prev = before_set(keys, less, i, m - 1);
        if goes_before(keys, less, m - 1, i) {
            assert(before_set(keys, less, i, m) =~= prev.insert(m - 1));
            assert(!prev.contains(m - 1));
        } else {
            assert(before_set(keys, less, i, m) =~= prev);
        }
    }
}

/// `perm` maps the positions below `n` one to one onto themselves.
pub open spec fn is_bijection(perm: Seq<int>, n: nat) -> bool {
    &&& perm.len() == n
    &&& forall|k: int| 0 <= k < n ==> 0 <= #[trigger] perm[k] < n
    &&& forall|a: int, b: int| 0 <= a < n && 0 <= b < n && a != b ==> #[trigger] perm[a] != #[trigger] perm[b]
    &&& forall|j: int| 0 <= j < n ==> #[trigger] perm.contains(j)
}

/// The items in the order `perm` gives.
pub open spec fn rearranged<A>(s: Seq<A>, perm: Seq<int>) -> Seq<A> {
    Seq::new(perm.len(), |k: int| s[perm[k]])
}

/// No key stands twice.
pub open spec fn distinct_keys<T>(keys: Seq<T>) -> bool {
    forall|a: int, b: int| 0 <= a < keys.len() && 0 <= b < keys.len() && a != b ==> keys[a] != keys[b]
}

proof fn lemma_rank_rearranged<T>(keys: Seq<T>, less: spec_fn(T, T) -> bool, perm: Seq<int>, k: int)
    requires
        strict_total(less),
        distinct_keys(keys),
        is_bijection(perm, keys.len()),
        0 <= k < keys.len(),
    ensures
        rank(rearranged(keys, perm), less, k) == rank(keys, less, perm[k]),
{
    let n = keys.len() as int;
    let k2 = rearranged(keys, perm);
    let x = before_set(k2, less, k, n);
    let y = before_set(keys, less, perm[k], n);
    lemma_count_is_size(k2, less, k, n);
    lemma_count_is_size(keys, less, perm[k], n);
    let f = |j: int| perm[j];
    assert forall|a: int, b: int| x.contains(a) && x.contains(b) && #[trigger] f(a) == #[trigger] f(b) implies a == b by {
    }
    assert(injective_on(f, x));
    assert forall|j: int| x.contains(j) implies y.contains(f(j)) by {
        assert(k2[j] == keys[perm[j]]);
        assert(k2[k] == keys[perm[k]]);
        if k2[j] == k2[k] {
            assert(j == k);
        }
    }
    assert forall|jj: int| y.contains(jj) implies exists|j: int| x.contains(j) && f(j) == jj by {
        assert(perm.contains(jj));
        let j = choose|j: int| 0 <= j < perm.len() && perm[j] == jj;
        assert(k2[j] == keys[perm[j]]);
        assert(k2[k] == keys[perm[k]]);
        if keys[jj] == keys[perm[k]] {
            assert(jj == perm[k]);
        }
        assert(x.contains(j));
    }
    assert(x.map(f) =~= y);
    lemma_map_size(x, y, f);
}

/// With distinct keys, the stable order does not depend on the order of the
/// items: rearranging the items (with their keys) gives the same sorted
/// sequence.
pub proof fn lemma_stable_sorted_rearranged<T, U>(s: Seq<U>, keys: Seq<T>, less: spec_fn(T, T) -> bool, perm: Seq<int>)
    requires
        strict_total(less),
        distinct_keys(keys),
        s.len() == keys.len(),
        is_bijection(perm, keys.len()),
    ensures
        stable_sorted(rearranged(s, perm), rearranged(keys, perm), less) == stable_sorted(s, keys, less),
{
    let n = keys.len() as int;
    let s2 = rearranged(s, perm);
    let k2 = rearranged(keys, perm);
    let a = stable_sorted(s2, k2, less);
    let b = stable_sorted(s, keys, less);
    assert forall|r: int| 0 <= r < n implies a[r] == b[r] by {
        lemma_rank_onto(k2, less, r);
        lemma_rank_onto(keys, less, r);
        let i2 = choose|i: int| 0 <= i < s2.len() && rank(k2, less, i) == r;
        let i1 = choose|i: int| 0 <= i < s.len() && rank(keys, less, i) == r;
        lemma_rank_rearranged(keys, less, perm, i2);
        lemma_rank_distinct(keys, less, perm[i2], i1);
        assert(s2[i2] == s[perm[i2]]);
    }
    assert(a =~= b);
}

/// The positions in the stable order: `order[k]` is the position whose rank
/// is `k`.
pub fn order_from_ranks<T>(ranks: &Vec<usize>, Ghost(keys): Ghost<Seq<T>>, Ghost(less): Ghost<spec_fn(T, T) -> bool>) -> (order: Vec<usize>)
    requires
        strict_total(less),
        ranks@.len() == keys.len(),
        forall|i: int| 0 <= i < keys.len() ==> #[trigger] ranks@[i] == rank(keys, less, i),
    ensures
        order@.len() == keys.len(),
        forall|k: int| 0 <= k < keys.len() ==> #[trigger] order@[k] < keys.len() && rank(keys, less, order@[k] as int) == k,
{
    let n = ranks.len();
    let mut order: Vec<usize> = Vec::new();
    let mut k: usize = 0;
    while k < n
        invariant
            k <= n,
            n == ranks@.len(),
            order@.len() == k,
            forall|j: int| 0 <= j < k ==> #[trigger] order@[j] == 0,
        decreases n - k,
    {
        order.push(0);
        k = k + 1;
    }
    assert forall|p: int| 0 <= p < n implies #[trigger] ranks@[p] < n by {
        lemma_rank_distinct(keys, less, p, p);
    }
    let mut i: usize = 0;
    while i < n
        invariant
            i <= n,
            n == ranks@.len(),
            n == keys.len(),
            strict_total(less),
            order@.len() == n,
            forall|p: int| 0 <= p < n ==> #[trigger] ranks@[p] < n,
            forall|p: int| 0 <= p < keys.len() ==> #[trigger] ranks@[p] == rank(keys, less, p),
            forall|p: int| 0 <= p < i ==> #[trigger] order@[ranks@[p] as int] == p,
        decreases n - i,
    {
        proof {
            lemma_rank_distinct(keys, less, i as int, i as int);
            assert forall|p: int| 0 <= p < i implies #[trigger] ranks@[p] != ranks@[i as int] by {
                lemma_rank_distinct(keys, less, p, i as int);
            }
        }
        order.set(ranks[i], i);
        i = i + 1;
    }
    assert forall|k: int| 0 <= k < keys.len() implies #[trigger] order@[k] < keys.len() && rank(
        keys,
        less,
        order@[k] as int,
    ) == k by {
        lemma_rank_onto(keys, less, k);
        let p = choose|p: int| 0 <= p < keys.len() && rank(keys, less, p) == k;
        assert(ranks@[p] == k);
        assert(order@[ranks@[p] as int] == p);
    }
    order
}

/// The ranks of integer keys in the stable order, descending when `desc`.
pub fn key_ranks(keys: &Vec<i64>, desc: bool) -> (r: Vec<usize>)
    ensures
        r@.len() == keys@.len(),
        forall|i: int| 0 <= i < keys@.len() ==> #[trigger] r@[i] == rank(keys@, key_less(desc), i),
{
    let n = keys.len();
    let ghost less = key_less(desc);
    let mut r: Vec<usize> = Vec::new();
    let mut i: usize = 0;
    while i < n
        invariant
            i <= n,
            n == keys@.len(),
            less == key_less(desc),
            r@.len() == i,
            forall|p: int| 0 <= p < i ==> #[trigger] r@[p] == rank(keys@, less, p),
        decreases n - i,
    {
        let ki = keys[i];
        let mut c: usize = 0;
        let mut j: usize = 0;
        while j < n
            invariant
                j <= n,
                n == keys@.len(),
                less == key_less(desc),
                i < n,
                ki == keys@[i as int],
                c == count_before(keys@, less, i as int, j as int),
                c <= j,
            decreases n - j,
        {
            let kj = keys[j];
            let before = if desc {
                kj > ki
            } else {
                kj < ki
            } || (kj == ki && j < i);
            assert(before == goes_before(keys@, less, j as int, i as int));
            if before {
                c = c + 1;
            }
            j = j + 1;
        }
        r.push(c);
        i = i + 1;
    }
    r
}

/// The texts of a list of strings.
pub open spec fn texts_of(v: Seq<String>) -> Seq<Seq<char>> {
    v.map_values(|s: String| s@)
}

/// The ranks of texts in their stable lexicographic order.
pub fn text_ranks(keys: &Vec<String>) -> (r: Vec<usize>)
    ensures
        r@.len() == keys@.len(),
        forall|i: int| 0 <= i < keys@.len() ==> #[trigger] r@[i] == rank(texts_of(keys@), text_order(), i),
{
    let n = keys.len();
    let ghost ks = texts_of(keys@);
    let mut r: Vec<usize> = Vec::new();
    let mut i: usize = 0;
    while i < n
        invariant
            i <= n,
            n == keys@.len(),
            ks == texts_of(keys@),
            r@.len() == i,
            forall|p: int| 0 <= p < i ==> #[trigger] r@[p] == rank(ks, text_order(), p),
        decreases n - i,
    {
        let mut c: usize = 0;
        let mut j: usize = 0;
        while j < n
            invariant
                j <= n,
                n == keys@.len(),
                ks == texts_of(keys@),
                i < n,
                c == count_before(ks, text_order(), i as int, j as int),
                c <= j,
            decreases n - j,
        {
            let before = text_lt(keys[j].as_str(), keys[i].as_str()) || (same_text(
                keys[j].as_str(),
                keys[i].as_str(),
            ) && j < i);
            assert(ks[j as int] == keys@[j as int]@ && ks[i as int] == keys@[i as int]@);
            assert(before == goes_before(ks, text_order(), j as int, i as int));
            if before {
                c = c + 1;
            }
            j = j + 1;
        }
        r.push(c);
        i = i + 1;
    }
    r
}

} // verus!
