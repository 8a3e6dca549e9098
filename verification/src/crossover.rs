//! Hybrid crossover of strategy structures: the conditions of both parents,
//! each once, are shuffled and dealt to two children, uniformly or weighted
//! by the parents' fitness, topped up to a minimum and cut to a maximum;
//! then the children's indicators are brought in line with their conditions
//! and handlers and timeframes may be swapped.

use vstd::prelude::*;
use crate::genetic::{
    enforce_indicator_limits, ensure_minimum_conditions, has_condition_id, limited, pruned, remove_unused_indicators,
    sync_indicators_with_conditions, sync_outcome, topped_up_outcome,
};
use crate::population::GeneticAlgorithmConfig;
use crate::model::{ConditionInfo, StrategyCandidate, StrategyCandidateView};
use crate::operands::{comparable, conflicts, has_conflicting_comparison_operator, operands_of, operands_same};
use crate::text::same_text;
use crate::random::{new_rng, random_below, random_ratio, shuffle_positions};
use rand::rngs::ThreadRng;

verus! {

/// The conditions of both parents, each with the weight of its parent.
pub open spec fn pairs_of(c1s: Seq<ConditionInfo>, w1: u32, c2s: Seq<ConditionInfo>, w2: u32) -> Seq<(ConditionInfo, u32)> {
    c1s.map_values(|c: ConditionInfo| (c, w1)) + c2s.map_values(|c: ConditionInfo| (c, w2))
}

/// Some pair of the list holds a condition with the identifier `id`.
pub open spec fn has_pair_id(s: Seq<(ConditionInfo, u32)>, id: Seq<char>) -> bool {
    exists|j: int| 0 <= j < s.len() && (#[trigger] s[j]).0.id@ == id
}

/// The pairs with the first condition of each identifier, in order.
pub open spec fn unique_pairs(s: Seq<(ConditionInfo, u32)>) -> Seq<(ConditionInfo, u32)>
    decreases s.len(),
{
    if s.len() == 0 {
        s
    } else {
        let prev = unique_pairs(s.drop_last());
        if has_pair_id(prev, s.last().0.id@) {
            prev
        } else {
            prev.push(s.last())
        }
    }
}

/// `perm` lists each position below `n` once.
pub open spec fn is_permutation(perm: Seq<usize>, n: nat) -> bool {
    &&& perm.len() == n
    &&& forall|i: int| 0 <= i < perm.len() ==> #[trigger] perm[i] < n
    &&& perm.no_duplicates()
}

/// The items in the order `perm` gives.
pub open spec fn permuted<A>(s: Seq<A>, perm: Seq<usize>) -> Seq<A> {
    Seq::new(perm.len(), |k: int| s[perm[k] as int])
}

/// One pass of weighted dealing to a child: each condition in turn joins it
/// when the child is below `max`, the condition's coin came up, and it does
/// not conflict with the child's conditions.
pub open spec fn weighted_pass(items: Seq<ConditionInfo>, coins: Seq<bool>, max: nat) -> Seq<ConditionInfo>
    decreases items.len(),
{
    if items.len() == 0 {
        Seq::empty()
    } else {
        let prev = weighted_pass(items.drop_last(), coins, max);
        let c = items.last();
        if prev.len() < max && coins[items.len() - 1] && !conflicts(c, prev) {
            prev.push(c)
        } else {
            prev
        }
    }
}

/// Uniform dealing: each condition in turn goes to the child its coin
/// names, or to the other one, if the child is below `max` and the
/// condition does not conflict with its conditions.
pub open spec fn uniform_pass(items: Seq<ConditionInfo>, coins: Seq<bool>, max: nat) -> (Seq<ConditionInfo>, Seq<ConditionInfo>)
    decreases items.len(),
{
    if items.len() == 0 {
        (Seq::empty(), Seq::empty())
    } else {
        let (a, b) = uniform_pass(items.drop_last(), coins, max);
        let c = items.last();
        let fits_a = a.len() < max && !conflicts(c, a);
        let fits_b = b.len() < max && !conflicts(c, b);
        if coins[items.len() - 1] {
            if fits_a {
                (a.push(c), b)
            } else if fits_b {
                (a, b.push(c))
            } else {
                (a, b)
            }
        } else {
            if fits_b {
                (a, b.push(c))
            } else if fits_a {
                (a.push(c), b)
            } else {
                (a, b)
            }
        }
    }
}

/// A condition may be added to a child: no condition of the child has its
/// identifier, and it conflicts with none.
pub open spec fn addable(c: ConditionInfo, child: Seq<ConditionInfo>) -> bool {
    !has_condition_id(child, c.id@) && !conflicts(c, child)
}

/// The child after adding the conditions of the pool that `picks` names,
/// in order.
pub open spec fn topped_up(a: Seq<ConditionInfo>, pool: Seq<ConditionInfo>, picks: Seq<int>) -> Seq<ConditionInfo>
    decreases picks.len(),
{
    if picks.len() == 0 {
        a
    } else {
        topped_up(a, pool, picks.drop_last()).push(pool[picks.last()])
    }
}

/// The picks top the child up: each names a condition that could be added
/// while the child was below `min`, and they stop when the child reaches
/// `min` or no condition of the pool can be added.
pub open spec fn valid_top_up(a: Seq<ConditionInfo>, pool: Seq<ConditionInfo>, picks: Seq<int>, min: nat) -> bool {
    &&& forall|q: int|
        0 <= q < picks.len() ==> {
            &&& 0 <= #[trigger] picks[q] < pool.len()
            &&& addable(pool[picks[q]], topped_up(a, pool, picks.take(q)))
            &&& topped_up(a, pool, picks.take(q)).len() < min
        }
    &&& (topped_up(a, pool, picks).len() >= min || forall|j: int|
        0 <= j < pool.len() ==> !addable(#[trigger] pool[j], topped_up(a, pool, picks)))
}

/// The first `max` conditions.
pub open spec fn truncated(a: Seq<ConditionInfo>, max: nat) -> Seq<ConditionInfo> {
    if a.len() > max {
        a.take(max as int)
    } else {
        a
    }
}

/// The children of a condition crossover, given its draws: the order of the
/// shuffled conditions, the coins of the dealing and the picks of the
/// topping up.
pub open spec fn dealt(
    u: Seq<(ConditionInfo, u32)>,
    weighted: bool,
    max: nat,
    min: nat,
    perm: Seq<usize>,
    coins1: Seq<bool>,
    coins2: Seq<bool>,
    picks1: Seq<int>,
    picks2: Seq<int>,
) -> (Seq<ConditionInfo>, Seq<ConditionInfo>) {
    let items = permuted(u, perm).map_values(|p: (ConditionInfo, u32)| p.0);
    let (a, b) = if weighted {
        (weighted_pass(items, coins1, max), weighted_pass(items, coins2, max))
    } else {
        uniform_pass(items, coins1, max)
    };
    (truncated(topped_up(a, items, picks1), max), truncated(topped_up(b, items, picks2), max))
}

/// The draws of a condition crossover are possible: a permutation of the
/// conditions, a coin per condition for each child, where a weight of zero
/// never and a full weight always admits to the first child (the reverse for
/// the second), and picks that top each child up.
pub open spec fn possible_draws(
    u: Seq<(ConditionInfo, u32)>,
    weighted: bool,
    max: nat,
    min: nat,
    perm: Seq<usize>,
    coins1: Seq<bool>,
    coins2: Seq<bool>,
    picks1: Seq<int>,
    picks2: Seq<int>,
) -> bool {
    let shuffled = permuted(u, perm);
    let items = shuffled.map_values(|p: (ConditionInfo, u32)| p.0);
    let (a, b) = if weighted {
        (weighted_pass(items, coins1, max), weighted_pass(items, coins2, max))
    } else {
        uniform_pass(items, coins1, max)
    };
    &&& is_permutation(perm, u.len())
    &&& coins1.len() == u.len()
    &&& coins2.len() == u.len()
    &&& weighted ==> forall|i: int|
        0 <= i < shuffled.len() ==> {
            &&& (#[trigger] shuffled[i]).1 == 0 ==> !coins1[i] && coins2[i]
            &&& shuffled[i].1 >= 1_000_000 ==> coins1[i] && !coins2[i]
        }
    &&& valid_top_up(a, items, picks1, min)
    &&& valid_top_up(b, items, picks2, min)
}

fn has_id_pair(s: &Vec<(ConditionInfo, u32)>, id: &String) -> (r: bool)
    ensures
        r == has_pair_id(s@, id@),
{
    let mut j: usize = 0;
    while j < s.len()
        invariant
            j <= s@.len(),
            forall|k: int| 0 <= k < j ==> (#[trigger] s@[k]).0.id@ != id@,
        decreases s@.len() - j,
    {
        if same_text(s[j].0.id.as_str(), id.as_str()) {
            return true;
        }
        j = j + 1;
    }
    false
}

/// The conditions of both parents, each once by identifier, with the
/// weights of their parents.
pub fn unique_conditions(c1s: &[ConditionInfo], w1: u32, c2s: &[ConditionInfo], w2: u32) -> (r: Vec<(ConditionInfo, u32)>)
    ensures
        r@ == unique_pairs(pairs_of(c1s@, w1, c2s@, w2)),
{
    let ghost all = pairs_of(c1s@, w1, c2s@, w2);
    let mut r: Vec<(ConditionInfo, u32)> = Vec::new();
    let mut i: usize = 0;
    while i < c1s.len()
        invariant
            i <= c1s@.len(),
            all == pairs_of(c1s@, w1, c2s@, w2),
            r@ == unique_pairs(all.take(i as int)),
        decreases c1s@.len() - i,
    {
        let pair = (c1s[i].clone(), w1);
        assert(pair == all[i as int]);
        assert(all.take(i + 1).drop_last() =~= all.take(i as int));
        if !has_id_pair(&r, &pair.0.id) {
            r.push(pair);
        }
        i = i + 1;
    }
    let mut j: usize = 0;
    while j < c2s.len()
        invariant
            j <= c2s@.len(),
            all == pairs_of(c1s@, w1, c2s@, w2),
            r@ == unique_pairs(all.take(c1s@.len() + j)),
        decreases c2s@.len() - j,
    {
        let pair = (c2s[j].clone(), w2);
        let ghost k = c1s@.len() + j;
        assert(pair == all[k]);
        assert(all.take(k + 1).drop_last() =~= all.take(k));
        if !has_id_pair(&r, &pair.0.id) {
            r.push(pair);
        }
        j = j + 1;
    }
    assert(all.take((c1s@.len() + c2s@.len()) as int) =~= all);
    r
}

/// A random order of the positions below `n`.
pub fn random_permutation(rng: &mut ThreadRng, n: usize) -> (r: Vec<usize>)
    ensures
        is_permutation(r@, n as nat),
{
    let mut v: Vec<usize> = Vec::new();
    let mut i: usize = 0;
    while i < n
        invariant
            i <= n,
            v@.len() == i,
            forall|k: int| 0 <= k < i ==> #[trigger] v@[k] == k,
        decreases n - i,
    {
        v.push(i);
        i = i + 1;
    }
    let ghost s0 = v@;
    assert(s0.no_duplicates());
    shuffle_positions(rng, &mut v);
    proof {
        broadcast use vstd::seq_lib::group_to_multiset_ensures;

        s0.lemma_multiset_has_no_duplicates();
        assert(v@.len() == v@.to_multiset().len());
        assert(s0.len() == s0.to_multiset().len());
        assert forall|x: usize| v@.to_multiset().contains(x) implies v@.to_multiset().count(x) == 1 by {
            assert(s0.to_multiset().contains(x));
        }
        v@.lemma_multiset_has_no_duplicates_conv();
        assert forall|k: int| 0 <= k < v@.len() implies #[trigger] v@[k] < n by {
            assert(v@.contains(v@[k]));
            assert(v@.to_multiset().count(v@[k]) > 0);
            assert(s0.contains(v@[k]));
        }
    }
    v
}

/// The conditions and weights of the pairs in the order `perm` gives.
fn apply_permutation(u: &Vec<(ConditionInfo, u32)>, perm: &Vec<usize>) -> (r: (Vec<ConditionInfo>, Vec<u32>))
    requires
        is_permutation(perm@, u@.len()),
    ensures
        r.0@ == permuted(u@, perm@).map_values(|p: (ConditionInfo, u32)| p.0),
        r.1@ == permuted(u@, perm@).map_values(|p: (ConditionInfo, u32)| p.1),
{
    let mut items: Vec<ConditionInfo> = Vec::new();
    let mut weights: Vec<u32> = Vec::new();
    let mut k: usize = 0;
    while k < perm.len()
        invariant
            k <= perm@.len(),
            is_permutation(perm@, u@.len()),
            items@.len() == k,
            weights@.len() == k,
            forall|j: int| 0 <= j < k ==> #[trigger] items@[j] == u@[perm@[j] as int].0,
            forall|j: int| 0 <= j < k ==> #[trigger] weights@[j] == u@[perm@[j] as int].1,
        decreases perm@.len() - k,
    {
        let idx = perm[k];
        items.push(u[idx].0.clone());
        weights.push(u[idx].1);
        k = k + 1;
    }
    assert(items@ =~= permuted(u@, perm@).map_values(|p: (ConditionInfo, u32)| p.0));
    assert(weights@ =~= permuted(u@, perm@).map_values(|p: (ConditionInfo, u32)| p.1));
    (items, weights)
}

/// Weighted dealing to one child, as `weighted_pass` says.
fn weighted_pass_exec(items: &Vec<ConditionInfo>, coins: &Vec<bool>, max: usize) -> (r: Vec<ConditionInfo>)
    requires
        coins@.len() == items@.len(),
    ensures
        r@ == weighted_pass(items@, coins@, max as nat),
{
    let mut r: Vec<ConditionInfo> = Vec::new();
    let mut i: usize = 0;
    while i < items.len()
        invariant
            i <= items@.len(),
            coins@.len() == items@.len(),
            r@ == weighted_pass(items@.take(i as int), coins@, max as nat),
        decreases items@.len() - i,
    {
        assert(items@.take(i + 1).drop_last() =~= items@.take(i as int));
        if r.len() < max && coins[i] && !has_conflicting_comparison_operator(&items[i], r.as_slice()) {
            r.push(items[i].clone());
        }
        i = i + 1;
    }
    assert(items@.take(items@.len() as int) =~= items@);
    r
}

/// Uniform dealing to both children, as `uniform_pass` says.
fn uniform_pass_exec(items: &Vec<ConditionInfo>, coins: &Vec<bool>, max: usize) -> (r: (Vec<ConditionInfo>, Vec<ConditionInfo>))
    requires
        coins@.len() == items@.len(),
    ensures
        (r.0@, r.1@) == uniform_pass(items@, coins@, max as nat),
{
    let mut a: Vec<ConditionInfo> = Vec::new();
    let mut b: Vec<ConditionInfo> = Vec::new();
    let mut i: usize = 0;
    while i < items.len()
        invariant
            i <= items@.len(),
            coins@.len() == items@.len(),
            (a@, b@) == uniform_pass(items@.take(i as int), coins@, max as nat),
        decreases items@.len() - i,
    {
        assert(items@.take(i + 1).drop_last() =~= items@.take(i as int));
        let c = &items[i];
        let fits_a = a.len() < max && !has_conflicting_comparison_operator(c, a.as_slice());
        let fits_b = b.len() < max && !has_conflicting_comparison_operator(c, b.as_slice());
        if coins[i] {
            if fits_a {
                a.push(c.clone());
            } else if fits_b {
                b.push(c.clone());
            }
        } else {
            if fits_b {
                b.push(c.clone());
            } else if fits_a {
                a.push(c.clone());
            }
        }
        i = i + 1;
    }
    assert(items@.take(items@.len() as int) =~= items@);
    (a, b)
}

fn has_condition_id_exec(conds: &Vec<ConditionInfo>, id: &String) -> (r: bool)
    ensures
        r == has_condition_id(conds@, id@),
{
    let mut j: usize = 0;
    while j < conds.len()
        invariant
            j <= conds@.len(),
            forall|k: int| 0 <= k < j ==> (#[trigger] conds@[k]).id@ != id@,
        decreases conds@.len() - j,
    {
        if same_text(conds[j].id.as_str(), id.as_str()) {
            return true;
        }
        j = j + 1;
    }
    false
}

/// Tops the child up to `min` with random conditions of the pool that can
/// be added, stopping early when none can.
fn top_up(a: Vec<ConditionInfo>, pool: &Vec<ConditionInfo>, min: usize, rng: &mut ThreadRng) -> (r: (
    Vec<ConditionInfo>,
    Ghost<Seq<int>>,
))
    ensures
        valid_top_up(a@, pool@, r.1@, min as nat),
        r.0@ == topped_up(a@, pool@, r.1@),
{
    let ghost a0 = a@;
    let mut a = a;
    let ghost mut picks: Seq<int> = Seq::empty();
    while a.len() < min
        invariant
            a@ == topped_up(a0, pool@, picks),
            forall|q: int|
                0 <= q < picks.len() ==> {
                    &&& 0 <= #[trigger] picks[q] < pool@.len()
                    &&& addable(pool@[picks[q]], topped_up(a0, pool@, picks.take(q)))
                    &&& topped_up(a0, pool@, picks.take(q)).len() < min
                },
        ensures
            a@ == topped_up(a0, pool@, picks),
            forall|q: int|
                0 <= q < picks.len() ==> {
                    &&& 0 <= #[trigger] picks[q] < pool@.len()
                    &&& addable(pool@[picks[q]], topped_up(a0, pool@, picks.take(q)))
                    &&& topped_up(a0, pool@, picks.take(q)).len() < min
                },
            a@.len() >= min || forall|j: int| 0 <= j < pool@.len() ==> !addable(#[trigger] pool@[j], a@),
        decreases min - a@.len(),
    {
        let mut candidates: Vec<usize> = Vec::new();
        let mut j: usize = 0;
        while j < pool.len()
            invariant
                j <= pool@.len(),
                forall|k: int| 0 <= k < candidates@.len() ==> #[trigger] candidates@[k] < pool@.len() && addable(
                    pool@[candidates@[k] as int],
                    a@,
                ),
                forall|k: int| 0 <= k < j && addable(#[trigger] pool@[k], a@) ==> candidates@.len() > 0,
            decreases pool@.len() - j,
        {
            if !has_condition_id_exec(&a, &pool[j].id) && !has_conflicting_comparison_operator(&pool[j], a.as_slice()) {
                candidates.push(j);
            }
            j = j + 1;
        }
        if candidates.len() == 0 {
            break;
        }
        let k = random_below(rng, candidates.len());
        let idx = candidates[k];
        let ghost before = picks;
        a.push(pool[idx].clone());
        proof {
            picks = picks.push(idx as int);
            assert(picks.drop_last() =~= before);
            assert forall|q: int|
                0 <= q < picks.len() implies {
                    &&& 0 <= #[trigger] picks[q] < pool@.len()
                    &&& addable(pool@[picks[q]], topped_up(a0, pool@, picks.take(q)))
                    &&& topped_up(a0, pool@, picks.take(q)).len() < min
                } by {
                if q < before.len() {
                    assert(picks.take(q) =~= before.take(q));
                } else {
                    assert(picks.take(q) =~= before);
                }
            }
        }
    }
    (a, Ghost(picks))
}

/// The children of a condition crossover, for some possible draws.
pub open spec fn hybrid_outcome(
    c1s: Seq<ConditionInfo>,
    c2s: Seq<ConditionInfo>,
    w1: u32,
    w2: u32,
    weighted: bool,
    max: nat,
    min: nat,
    r1: Seq<ConditionInfo>,
    r2: Seq<ConditionInfo>,
) -> bool {
    let u = unique_pairs(pairs_of(c1s, w1, c2s, w2));
    exists|perm: Seq<usize>, coins1: Seq<bool>, coins2: Seq<bool>, picks1: Seq<int>, picks2: Seq<int>|
        #![trigger dealt(u, weighted, max, min, perm, coins1, coins2, picks1, picks2)]
        possible_draws(u, weighted, max, min, perm, coins1, coins2, picks1, picks2) && (r1, r2) == dealt(
            u,
            weighted,
            max,
            min,
            perm,
            coins1,
            coins2,
            picks1,
            picks2,
        )
}

/// Deals the conditions of two parents to two children: each condition
/// once by identifier, with the weight of its parent, in a random order;
/// dealt by weight (each child drawing each condition with its weight, the
/// second child with the rest of it) or uniformly (a coin names the child
/// that is tried first); each child topped up to `min_conditions` with
/// random conditions that can be added, and cut to `max_conditions`.
pub fn crossover_conditions_hybrid(
    conditions1: &[ConditionInfo],
    conditions2: &[ConditionInfo],
    _parent1: &StrategyCandidate,
    _parent2: &StrategyCandidate,
    max_conditions: usize,
    min_conditions: usize,
    weight1: u32,
    weight2: u32,
    use_weighted: bool,
) -> (r: (Vec<ConditionInfo>, Vec<ConditionInfo>))
    ensures
        hybrid_outcome(
            conditions1@,
            conditions2@,
            weight1,
            weight2,
            use_weighted,
            max_conditions as nat,
            min_conditions as nat,
            r.0@,
            r.1@,
        ),
{
    let mut rng = new_rng();
    let u = unique_conditions(conditions1, weight1, conditions2, weight2);
    let perm = random_permutation(&mut rng, u.len());
    let (items, weights) = apply_permutation(&u, &perm);
    let ghost shuffled = permuted(u@, perm@);
    let mut coins1: Vec<bool> = Vec::new();
    let mut coins2: Vec<bool> = Vec::new();
    let mut i: usize = 0;
    while i < items.len()
        invariant
            i <= items@.len(),
            items@.len() == u@.len(),
            weights@.len() == u@.len(),
            shuffled == permuted(u@, perm@),
            weights@ == shuffled.map_values(|p: (ConditionInfo, u32)| p.1),
            coins1@.len() == i,
            coins2@.len() == i,
            use_weighted ==> forall|k: int|
                0 <= k < i ==> {
                    &&& (#[trigger] shuffled[k]).1 == 0 ==> !coins1@[k] && coins2@[k]
                    &&& shuffled[k].1 >= 1_000_000 ==> coins1@[k] && !coins2@[k]
                },
        decreases items@.len() - i,
    {
        if use_weighted {
            let w = if weights[i] > 1_000_000 {
                1_000_000
            } else {
                weights[i]
            };
            coins1.push(random_ratio(&mut rng, w, 1_000_000));
            coins2.push(random_ratio(&mut rng, 1_000_000 - w, 1_000_000));
        } else {
            coins1.push(random_ratio(&mut rng, 1, 2));
            coins2.push(false);
        }
        i = i + 1;
    }
    let (a, b) = if use_weighted {
        (weighted_pass_exec(&items, &coins1, max_conditions), weighted_pass_exec(&items, &coins2, max_conditions))
    } else {
        uniform_pass_exec(&items, &coins1, max_conditions)
    };
    let (mut a, picks1) = top_up(a, &items, min_conditions, &mut rng);
    let (mut b, picks2) = top_up(b, &items, min_conditions, &mut rng);
    a.truncate(max_conditions);
    b.truncate(max_conditions);
    let ghost u_spec = unique_pairs(pairs_of(conditions1@, weight1, conditions2@, weight2));
    assert(possible_draws(
        u_spec,
        use_weighted,
        max_conditions as nat,
        min_conditions as nat,
        perm@,
        coins1@,
        coins2@,
        picks1@,
        picks2@,
    ));
    assert((a@, b@) == dealt(
        u_spec,
        use_weighted,
        max_conditions as nat,
        min_conditions as nat,
        perm@,
        coins1@,
        coins2@,
        picks1@,
        picks2@,
    ));
    (a, b)
}

/// The weights of two parents in a crossover, in millionths, and whether
/// conditions are dealt by them.
#[derive(Clone, Copy, Debug, PartialEq, Eq, Structural)]
pub struct CrossoverWeights {
    pub weight1: u32,
    pub weight2: u32,
    pub weighted: bool,
}

/// The limits of a structure crossover: the maximum of entry conditions,
/// of exit conditions, the minimum of entry conditions and the maximum of
/// indicators, from the builder configuration or 4, 2, 1 and 4 without one.
pub open spec fn crossover_limits(config: GeneticAlgorithmConfig) -> (usize, usize, usize, usize) {
    match config.candidate_builder_config {
        Some(c) => (
            c.constraints.max_entry_conditions,
            c.constraints.max_exit_conditions,
            c.constraints.min_entry_conditions,
            c.constraints.max_indicators,
        ),
        None => (4, 2, 1, 4),
    }
}

/// The candidate with other entry conditions.
pub open spec fn with_conditions(c: StrategyCandidateView, conds: Seq<ConditionInfo>) -> StrategyCandidateView {
    StrategyCandidateView { conditions: conds, ..c }
}

/// The candidate with other exit conditions.
pub open spec fn with_exits(c: StrategyCandidateView, conds: Seq<ConditionInfo>) -> StrategyCandidateView {
    StrategyCandidateView { exit_conditions: conds, ..c }
}

/// The entry conditions of the parents dealt to the children, whose
/// indicators are then synchronised.
pub open spec fn entry_round(
    p1: StrategyCandidateView,
    p2: StrategyCandidateView,
    w: CrossoverWeights,
    max: nat,
    min: nat,
    c1: StrategyCandidateView,
    c2: StrategyCandidateView,
    r1: StrategyCandidateView,
    r2: StrategyCandidateView,
) -> bool {
    exists|e1: Seq<ConditionInfo>, e2: Seq<ConditionInfo>|
        #![trigger hybrid_outcome(p1.conditions, p2.conditions, w.weight1, w.weight2, w.weighted, max, min, e1, e2)]
        hybrid_outcome(p1.conditions, p2.conditions, w.weight1, w.weight2, w.weighted, max, min, e1, e2)
            && sync_outcome(with_conditions(c1, e1), p1, p2, r1) && sync_outcome(with_conditions(c2, e2), p1, p2, r2)
}

/// The exit conditions of the parents dealt to the children, with no
/// minimum, whose indicators are then synchronised.
pub open spec fn exit_round(
    p1: StrategyCandidateView,
    p2: StrategyCandidateView,
    w: CrossoverWeights,
    max: nat,
    c1: StrategyCandidateView,
    c2: StrategyCandidateView,
    r1: StrategyCandidateView,
    r2: StrategyCandidateView,
) -> bool {
    exists|e1: Seq<ConditionInfo>, e2: Seq<ConditionInfo>|
        #![trigger hybrid_outcome(p1.exit_conditions, p2.exit_conditions, w.weight1, w.weight2, w.weighted, max, 0, e1, e2)]
        hybrid_outcome(p1.exit_conditions, p2.exit_conditions, w.weight1, w.weight2, w.weighted, max, 0, e1, e2)
            && sync_outcome(with_exits(c1, e1), p1, p2, r1) && sync_outcome(with_exits(c2, e2), p1, p2, r2)
}

/// The children with their stop handlers, take handlers and timeframes
/// swapped as the three flags say.
pub open spec fn swapped(
    c1: StrategyCandidateView,
    c2: StrategyCandidateView,
    stops: bool,
    takes: bool,
    frames: bool,
) -> (StrategyCandidateView, StrategyCandidateView) {
    let (s1, s2) = if stops {
        (c2.stop_handlers, c1.stop_handlers)
    } else {
        (c1.stop_handlers, c2.stop_handlers)
    };
    let (t1, t2) = if takes {
        (c2.take_handlers, c1.take_handlers)
    } else {
        (c1.take_handlers, c2.take_handlers)
    };
    let (f1, f2) = if frames {
        (c2.timeframes, c1.timeframes)
    } else {
        (c1.timeframes, c2.timeframes)
    };
    (
        StrategyCandidateView { stop_handlers: s1, take_handlers: t1, timeframes: f1, ..c1 },
        StrategyCandidateView { stop_handlers: s2, take_handlers: t2, timeframes: f2, ..c2 },
    )
}

/// The steps of a structure crossover, with its intermediate children and
/// its coins: entry conditions dealt (or not), exit conditions dealt (or
/// not), unused elements pruned, indicators limited, handlers and
/// timeframes swapped (or not), entry conditions topped up from each
/// child's own parent.
pub open spec fn crossed_with(
    p1: StrategyCandidateView,
    p2: StrategyCandidateView,
    w: CrossoverWeights,
    config: GeneticAlgorithmConfig,
    a1: StrategyCandidateView,
    a2: StrategyCandidateView,
    b1: StrategyCandidateView,
    b2: StrategyCandidateView,
    entry: bool,
    exit: bool,
    stops: bool,
    takes: bool,
    frames: bool,
    r1: StrategyCandidateView,
    r2: StrategyCandidateView,
) -> bool {
    let (max_entry, max_exit, min_entry, max_indicators) = crossover_limits(config);
    let (d1, d2) = swapped(
        limited(pruned(b1), max_indicators as nat),
        limited(pruned(b2), max_indicators as nat),
        stops,
        takes,
        frames,
    );
    &&& if entry {
        entry_round(p1, p2, w, max_entry as nat, min_entry as nat, p1, p2, a1, a2)
    } else {
        a1 == p1 && a2 == p2
    }
    &&& if exit {
        exit_round(p1, p2, w, max_exit as nat, a1, a2, b1, b2)
    } else {
        b1 == a1 && b2 == a2
    }
    &&& topped_up_outcome(d1, p1, min_entry as nat, r1)
    &&& topped_up_outcome(d2, p2, min_entry as nat, r2)
}

/// The children of a structure crossover on the given coins, for some
/// draws inside it.
pub open spec fn crossed_on(
    p1: StrategyCandidateView,
    p2: StrategyCandidateView,
    w: CrossoverWeights,
    config: GeneticAlgorithmConfig,
    entry: bool,
    exit: bool,
    stops: bool,
    takes: bool,
    frames: bool,
    r1: StrategyCandidateView,
    r2: StrategyCandidateView,
) -> bool {
    exists|a1: StrategyCandidateView, a2: StrategyCandidateView, b1: StrategyCandidateView, b2: StrategyCandidateView|
        #[trigger] crossed_with(p1, p2, w, config, a1, a2, b1, b2, entry, exit, stops, takes, frames, r1, r2)
}

/// The children of a structure crossover, for some coins and draws.
pub open spec fn structure_outcome(
    p1: StrategyCandidateView,
    p2: StrategyCandidateView,
    w: CrossoverWeights,
    config: GeneticAlgorithmConfig,
    r1: StrategyCandidateView,
    r2: StrategyCandidateView,
) -> bool {
    exists|
        a1: StrategyCandidateView,
        a2: StrategyCandidateView,
        b1: StrategyCandidateView,
        b2: StrategyCandidateView,
        entry: bool,
        exit: bool,
        stops: bool,
        takes: bool,
        frames: bool,
    |
        #[trigger] crossed_with(p1, p2, w, config, a1, a2, b1, b2, entry, exit, stops, takes, frames, r1, r2)
}

/// Crosses two strategy structures. With the probability of the crossover
/// rate, the children, copies of the parents, get the parents' entry
/// conditions dealt to them (on a coin), then their exit conditions (on a
/// coin), their indicators synchronised after each; they are pruned and
/// limited in indicators, may swap stop handlers, take handlers and
/// timeframes (a coin each), and are topped up with entry conditions from
/// their own parent. Otherwise the children are the parents.
pub fn crossover_structure_hybrid(
    parent1: &StrategyCandidate,
    parent2: &StrategyCandidate,
    weights: &CrossoverWeights,
    config: &GeneticAlgorithmConfig,
) -> (r: (StrategyCandidate, StrategyCandidate))
    ensures
        config.crossover_rate == 0 ==> r.0@ == parent1@ && r.1@ == parent2@,
        config.crossover_rate >= 1_000_000 ==> structure_outcome(parent1@, parent2@, *weights, *config, r.0@, r.1@),
        (r.0@ == parent1@ && r.1@ == parent2@) || structure_outcome(parent1@, parent2@, *weights, *config, r.0@, r.1@),
{
    let mut rng = new_rng();
    let rate = if config.crossover_rate > 1_000_000 {
        1_000_000
    } else {
        config.crossover_rate
    };
    let cross = random_ratio(&mut rng, rate, 1_000_000);
    if !cross {
        return cross_structures_with_coins(parent1, parent2, weights, config, false, false, false, false, false, false);
    }
    let entry = random_ratio(&mut rng, 1, 2);
    let exit = random_ratio(&mut rng, 1, 2);
    let stops = random_ratio(&mut rng, 1, 2);
    let takes = random_ratio(&mut rng, 1, 2);
    let frames = random_ratio(&mut rng, 1, 2);
    let r = cross_structures_with_coins(parent1, parent2, weights, config, true, entry, exit, stops, takes, frames);
    proof {
        let (a1, a2, b1, b2) = choose|
            a1: StrategyCandidateView,
            a2: StrategyCandidateView,
            b1: StrategyCandidateView,
            b2: StrategyCandidateView,
        |
            #[trigger] crossed_with(parent1@, parent2@, *weights, *config, a1, a2, b1, b2, entry, exit, stops, takes, frames, r.0@, r.1@);
        assert(crossed_with(parent1@, parent2@, *weights, *config, a1, a2, b1, b2, entry, exit, stops, takes, frames, r.0@, r.1@));
    }
    r
}

/// The structure crossover for given coins: without the crossover coin the
/// children are the parents; with it, the children are those of
/// `crossed_with` for the entry, exit, stop, take and timeframe coins (the
/// draws inside the condition crossovers and top-ups stay random).
pub fn cross_structures_with_coins(
    parent1: &StrategyCandidate,
    parent2: &StrategyCandidate,
    weights: &CrossoverWeights,
    config: &GeneticAlgorithmConfig,
    cross: bool,
    entry: bool,
    exit: bool,
    stops: bool,
    takes: bool,
    frames: bool,
) -> (r: (StrategyCandidate, StrategyCandidate))
    ensures
        !cross ==> r.0@ == parent1@ && r.1@ == parent2@,
        cross ==> crossed_on(parent1@, parent2@, *weights, *config, entry, exit, stops, takes, frames, r.0@, r.1@),
{
    let (max_entry, max_exit, min_entry, max_indicators) = match &config.candidate_builder_config {
        Some(c) => (
            c.constraints.max_entry_conditions,
            c.constraints.max_exit_conditions,
            c.constraints.min_entry_conditions,
            c.constraints.max_indicators,
        ),
        None => (4, 2, 1, 4),
    };
    let mut child1 = parent1.clone();
    let mut child2 = parent2.clone();
    if !cross {
        return (child1, child2);
    }
    let ghost p1 = parent1@;
    let ghost p2 = parent2@;
    if entry {
        let (e1, e2) = crossover_conditions_hybrid(
            parent1.conditions.as_slice(),
            parent2.conditions.as_slice(),
            parent1,
            parent2,
            max_entry,
            min_entry,
            weights.weight1,
            weights.weight2,
            weights.weighted,
        );
        let ghost g1 = e1@;
        let ghost g2 = e2@;
        assert(hybrid_outcome(p1.conditions, p2.conditions, weights.weight1, weights.weight2, weights.weighted, max_entry as nat, min_entry as nat, g1, g2));
        child1.conditions = e1;
        child2.conditions = e2;
        let ghost before1 = child1@;
        let ghost before2 = child2@;
        assert(before1 == with_conditions(p1, g1));
        assert(before2 == with_conditions(p2, g2));
        sync_indicators_with_conditions(&mut child1, parent1, parent2);
        sync_indicators_with_conditions(&mut child2, parent1, parent2);
        assert(sync_outcome(with_conditions(p1, g1), p1, p2, child1@));
        assert(sync_outcome(with_conditions(p2, g2), p1, p2, child2@));
        assert(entry_round(p1, p2, *weights, max_entry as nat, min_entry as nat, p1, p2, child1@, child2@));
    }
    let ghost a1 = child1@;
    let ghost a2 = child2@;
    if exit {
        let (x1, x2) = crossover_conditions_hybrid(
            parent1.exit_conditions.as_slice(),
            parent2.exit_conditions.as_slice(),
            parent1,
            parent2,
            max_exit,
            0,
            weights.weight1,
            weights.weight2,
            weights.weighted,
        );
        let ghost g1 = x1@;
        let ghost g2 = x2@;
        assert(hybrid_outcome(p1.exit_conditions, p2.exit_conditions, weights.weight1, weights.weight2, weights.weighted, max_exit as nat, 0, g1, g2));
        child1.exit_conditions = x1;
        child2.exit_conditions = x2;
        let ghost before1 = child1@;
        let ghost before2 = child2@;
        assert(before1 == with_exits(a1, g1));
        assert(before2 == with_exits(a2, g2));
        sync_indicators_with_conditions(&mut child1, parent1, parent2);
        sync_indicators_with_conditions(&mut child2, parent1, parent2);
        assert(sync_outcome(with_exits(a1, g1), p1, p2, child1@));
        assert(sync_outcome(with_exits(a2, g2), p1, p2, child2@));
        assert(exit_round(p1, p2, *weights, max_exit as nat, a1, a2, child1@, child2@));
    }
    let ghost b1 = child1@;
    let ghost b2 = child2@;
    remove_unused_indicators(&mut child1);
    remove_unused_indicators(&mut child2);
    enforce_indicator_limits(&mut child1, max_indicators);
    enforce_indicator_limits(&mut child2, max_indicators);
    if stops {
        std::mem::swap(&mut child1.stop_handlers, &mut child2.stop_handlers);
    }
    if takes {
        std::mem::swap(&mut child1.take_handlers, &mut child2.take_handlers);
    }
    if frames {
        std::mem::swap(&mut child1.timeframes, &mut child2.timeframes);
    }
    let ghost (d1, d2) = swapped(
        limited(pruned(b1), max_indicators as nat),
        limited(pruned(b2), max_indicators as nat),
        stops,
        takes,
        frames,
    );
    assert(child1@ == d1 && child2@ == d2);
    ensure_minimum_conditions(&mut child1, parent1, min_entry);
    ensure_minimum_conditions(&mut child2, parent2, min_entry);
    assert(crossed_with(parent1@, parent2@, *weights, *config, a1, a2, b1, b2, entry, exit, stops, takes, frames, child1@, child2@));
    assert(crossed_on(parent1@, parent2@, *weights, *config, entry, exit, stops, takes, frames, child1@, child2@));
    (child1, child2)
}


/// No two conditions share an identifier.
pub open spec fn distinct_ids(s: Seq<ConditionInfo>) -> bool {
    forall|i: int, j: int| 0 <= i < j < s.len() ==> (#[trigger] s[i]).id@ != (#[trigger] s[j]).id@
}

/// Every condition is one of `pool`.
pub open spec fn within(s: Seq<ConditionInfo>, pool: Seq<ConditionInfo>) -> bool {
    forall|k: int| 0 <= k < s.len() ==> pool.contains(#[trigger] s[k])
}

proof fn lemma_unique_pairs(s: Seq<(ConditionInfo, u32)>)
    ensures
        forall|k: int| 0 <= k < unique_pairs(s).len() ==> s.contains(#[trigger] unique_pairs(s)[k]),
        forall|i: int, j: int|
            0 <= i < j < unique_pairs(s).len() ==> (#[trigger] unique_pairs(s)[i]).0.id@ != (#[trigger] unique_pairs(
                s,
            )[j]).0.id@,
    decreases s.len(),
{
    if s.len() > 0 {
        let prev = unique_pairs(s.drop_last());
        lemma_unique_pairs(s.drop_last());
        assert forall|k: int| 0 <= k < prev.len() implies s.contains(#[trigger] prev[k]) by {
            let j = choose|j: int| 0 <= j < s.drop_last().len() && s.drop_last()[j] == prev[k];
            assert(s[j] == prev[k]);
        }
        if !has_pair_id(prev, s.last().0.id@) {
            let r = prev.push(s.last());
            assert(s[s.len() - 1] == s.last());
            assert forall|i: int, j: int| 0 <= i < j < r.len() implies (#[trigger] r[i]).0.id@ != (#[trigger] r[j]).0.id@ by {
                if j == r.len() - 1 {
                    assert(r[i] == prev[i]);
                }
            }
        }
    }
}

proof fn lemma_pairs_from_parents(c1s: Seq<ConditionInfo>, w1: u32, c2s: Seq<ConditionInfo>, w2: u32, x: (ConditionInfo, u32))
    requires
        pairs_of(c1s, w1, c2s, w2).contains(x),
    ensures
        (c1s + c2s).contains(x.0),
{
    let all = pairs_of(c1s, w1, c2s, w2);
    let j = choose|j: int| 0 <= j < all.len() && all[j] == x;
    assert((c1s + c2s)[j] == x.0);
}

proof fn lemma_shuffled_items(u: Seq<(ConditionInfo, u32)>, perm: Seq<usize>, pool: Seq<ConditionInfo>)
    requires
        is_permutation(perm, u.len()),
        forall|k: int| 0 <= k < u.len() ==> pool.contains(#[trigger] u[k].0),
        forall|i: int, j: int| 0 <= i < j < u.len() ==> (#[trigger] u[i]).0.id@ != (#[trigger] u[j]).0.id@,
    ensures
        within(permuted(u, perm).map_values(|p: (ConditionInfo, u32)| p.0), pool),
        distinct_ids(permuted(u, perm).map_values(|p: (ConditionInfo, u32)| p.0)),
{
    let items = permuted(u, perm).map_values(|p: (ConditionInfo, u32)| p.0);
    assert forall|k: int| 0 <= k < items.len() implies pool.contains(#[trigger] items[k]) by {
        assert(items[k] == u[perm[k] as int].0);
    }
    assert forall|i: int, j: int| 0 <= i < j < items.len() implies (#[trigger] items[i]).id@ != (#[trigger] items[j]).id@ by {
        assert(perm[i] != perm[j]);
        assert(items[i] == u[perm[i] as int].0);
        assert(items[j] == u[perm[j] as int].0);
        if perm[i] < perm[j] {
            assert(u[perm[i] as int].0.id@ != u[perm[j] as int].0.id@);
        } else {
            assert(u[perm[j] as int].0.id@ != u[perm[i] as int].0.id@);
        }
    }
}

proof fn lemma_weighted_pass(items: Seq<ConditionInfo>, coins: Seq<bool>, max: nat)
    requires
        distinct_ids(items),
    ensures
        within(weighted_pass(items, coins, max), items),
        distinct_ids(weighted_pass(items, coins, max)),
        weighted_pass(items, coins, max).len() <= max,
    decreases items.len(),
{
    if items.len() > 0 {
        let rest = items.drop_last();
        let prev = weighted_pass(rest, coins, max);
        lemma_weighted_pass(rest, coins, max);
        assert forall|k: int| 0 <= k < prev.len() implies items.contains(#[trigger] prev[k]) by {
            let j = choose|j: int| 0 <= j < rest.len() && rest[j] == prev[k];
            assert(items[j] == prev[k]);
        }
        let c = items.last();
        assert(items[items.len() - 1] == c);
        let r = prev.push(c);
        assert forall|i: int, j: int| 0 <= i < j < r.len() implies (#[trigger] r[i]).id@ != (#[trigger] r[j]).id@ by {
            if j == r.len() - 1 {
                let m = choose|m: int| 0 <= m < rest.len() && rest[m] == prev[i];
                assert(items[m] == prev[i]);
                assert(r[i] == prev[i]);
            }
        }
        assert forall|k: int| 0 <= k < r.len() implies items.contains(#[trigger] r[k]) by {
            if k < prev.len() {
                assert(r[k] == prev[k]);
            }
        }
    }
}

proof fn lemma_uniform_pass(items: Seq<ConditionInfo>, coins: Seq<bool>, max: nat)
    requires
        distinct_ids(items),
    ensures
        within(uniform_pass(items, coins, max).0, items),
        within(uniform_pass(items, coins, max).1, items),
        distinct_ids(uniform_pass(items, coins, max).0),
        distinct_ids(uniform_pass(items, coins, max).1),
    decreases items.len(),
{
    if items.len() > 0 {
        let rest = items.drop_last();
        let (a, b) = uniform_pass(rest, coins, max);
        lemma_uniform_pass(rest, coins, max);
        let c = items.last();
        assert(items[items.len() - 1] == c);
        assert forall|k: int| 0 <= k < a.len() implies items.contains(#[trigger] a[k]) && a[k].id@ != c.id@ by {
            let j = choose|j: int| 0 <= j < rest.len() && rest[j] == a[k];
            assert(items[j] == a[k]);
        }
        assert forall|k: int| 0 <= k < b.len() implies items.contains(#[trigger] b[k]) && b[k].id@ != c.id@ by {
            let j = choose|j: int| 0 <= j < rest.len() && rest[j] == b[k];
            assert(items[j] == b[k]);
        }
        let ra = a.push(c);
        let rb = b.push(c);
        assert forall|i: int, j: int| 0 <= i < j < ra.len() implies (#[trigger] ra[i]).id@ != (#[trigger] ra[j]).id@ by {
            if j == ra.len() - 1 {
                assert(ra[i] == a[i]);
            }
        }
        assert forall|k: int| 0 <= k < ra.len() implies items.contains(#[trigger] ra[k]) by {
            if k < a.len() {
                assert(ra[k] == a[k]);
            }
        }
        assert forall|i: int, j: int| 0 <= i < j < rb.len() implies (#[trigger] rb[i]).id@ != (#[trigger] rb[j]).id@ by {
            if j == rb.len() - 1 {
                assert(rb[i] == b[i]);
            }
        }
        assert forall|k: int| 0 <= k < rb.len() implies items.contains(#[trigger] rb[k]) by {
            if k < b.len() {
                assert(rb[k] == b[k]);
            }
        }
    }
}

proof fn lemma_topped_up(a: Seq<ConditionInfo>, pool: Seq<ConditionInfo>, picks: Seq<int>, min: nat, all: Seq<ConditionInfo>, n: int)
    requires
        valid_top_up(a, pool, picks, min),
        within(a, all),
        within(pool, all),
        distinct_ids(a),
        0 <= n <= picks.len(),
    ensures
        within(topped_up(a, pool, picks.take(n)), all),
        distinct_ids(topped_up(a, pool, picks.take(n))),
    decreases n,
{
    if n == 0 {
        assert(picks.take(0) =~= Seq::<int>::empty());
    } else {
        lemma_topped_up(a, pool, picks, min, all, n - 1);
        let prev = topped_up(a, pool, picks.take(n - 1));
        assert(picks.take(n).drop_last() =~= picks.take(n - 1));
        let q = n - 1;
        assert(0 <= picks[q] < pool.len());
        assert(addable(pool[picks[q]], topped_up(a, pool, picks.take(q))));
        let c = pool[picks[q]];
        let r = topped_up(a, pool, picks.take(n));
        assert(r == prev.push(c));
        assert forall|i: int, j: int| 0 <= i < j < r.len() implies (#[trigger] r[i]).id@ != (#[trigger] r[j]).id@ by {
            if j == r.len() - 1 {
                assert(r[i] == prev[i]);
                if prev[i].id@ == c.id@ {
                    assert(has_condition_id(prev, c.id@));
                }
            }
        }
        assert forall|k: int| 0 <= k < r.len() implies all.contains(#[trigger] r[k]) by {
            if k < prev.len() {
                assert(r[k] == prev[k]);
            } else {
                assert(pool.contains(pool[picks[q]]));
            }
        }
    }
}

proof fn lemma_truncated(a: Seq<ConditionInfo>, max: nat, all: Seq<ConditionInfo>)
    requires
        within(a, all),
        distinct_ids(a),
    ensures
        within(truncated(a, max), all),
        distinct_ids(truncated(a, max)),
        truncated(a, max).len() <= max,
{
    let t = truncated(a, max);
    assert forall|k: int| 0 <= k < t.len() implies all.contains(#[trigger] t[k]) by {
        assert(t[k] == a[k]);
    }
    assert forall|i: int, j: int| 0 <= i < j < t.len() implies (#[trigger] t[i]).id@ != (#[trigger] t[j]).id@ by {
        assert(t[i] == a[i]);
        assert(t[j] == a[j]);
    }
}

proof fn lemma_within_trans(s: Seq<ConditionInfo>, mid: Seq<ConditionInfo>, all: Seq<ConditionInfo>)
    requires
        within(s, mid),
        within(mid, all),
    ensures
        within(s, all),
{
    assert forall|k: int| 0 <= k < s.len() implies all.contains(#[trigger] s[k]) by {
        let j = choose|j: int| 0 <= j < mid.len() && mid[j] == s[k];
        assert(all.contains(mid[j]));
    }
}

/// Each child of a condition crossover holds no more conditions than the
/// maximum, only conditions of its parents, and no identifier twice.
pub proof fn law_hybrid_children_from_parents(
    c1s: Seq<ConditionInfo>,
    c2s: Seq<ConditionInfo>,
    w1: u32,
    w2: u32,
    weighted: bool,
    max: nat,
    min: nat,
    r1: Seq<ConditionInfo>,
    r2: Seq<ConditionInfo>,
)
    requires
        hybrid_outcome(c1s, c2s, w1, w2, weighted, max, min, r1, r2),
    ensures
        r1.len() <= max,
        r2.len() <= max,
        within(r1, c1s + c2s),
        within(r2, c1s + c2s),
        distinct_ids(r1),
        distinct_ids(r2),
{
    let all = c1s + c2s;
    let u = unique_pairs(pairs_of(c1s, w1, c2s, w2));
    let (perm, coins1, coins2, picks1, picks2) = choose|
        perm: Seq<usize>,
        coins1: Seq<bool>,
        coins2: Seq<bool>,
        picks1: Seq<int>,
        picks2: Seq<int>,
    |
        #![trigger dealt(u, weighted, max, min, perm, coins1, coins2, picks1, picks2)]
        possible_draws(u, weighted, max, min, perm, coins1, coins2, picks1, picks2) && (r1, r2) == dealt(
            u,
            weighted,
            max,
            min,
            perm,
            coins1,
            coins2,
            picks1,
            picks2,
        );
    lemma_unique_pairs(pairs_of(c1s, w1, c2s, w2));
    assert forall|k: int| 0 <= k < u.len() implies all.contains(#[trigger] u[k].0) by {
        lemma_pairs_from_parents(c1s, w1, c2s, w2, u[k]);
    }
    let items = permuted(u, perm).map_values(|p: (ConditionInfo, u32)| p.0);
    lemma_shuffled_items(u, perm, all);
    let (a, b) = if weighted {
        (weighted_pass(items, coins1, max), weighted_pass(items, coins2, max))
    } else {
        uniform_pass(items, coins1, max)
    };
    if weighted {
        lemma_weighted_pass(items, coins1, max);
        lemma_weighted_pass(items, coins2, max);
    } else {
        lemma_uniform_pass(items, coins1, max);
    }
    lemma_within_trans(a, items, all);
    lemma_within_trans(b, items, all);
    lemma_topped_up(a, items, picks1, min, all, picks1.len() as int);
    lemma_topped_up(b, items, picks2, min, all, picks2.len() as int);
    assert(picks1.take(picks1.len() as int) =~= picks1);
    assert(picks2.take(picks2.len() as int) =~= picks2);
    lemma_truncated(topped_up(a, items, picks1), max, all);
    lemma_truncated(topped_up(b, items, picks2), max, all);
}

/// Uniform dealing gives each condition to one child at most: the two
/// children hold together no more conditions than were dealt, and, the
/// dealt conditions having distinct identifiers, no identifier is in both
/// children.
pub proof fn law_uniform_pass_deals_each_once(items: Seq<ConditionInfo>, coins: Seq<bool>, max: nat)
    ensures
        uniform_pass(items, coins, max).0.len() + uniform_pass(items, coins, max).1.len() <= items.len(),
        distinct_ids(items) ==> forall|i: int, j: int|
            0 <= i < uniform_pass(items, coins, max).0.len() && 0 <= j < uniform_pass(items, coins, max).1.len()
                ==> (#[trigger] uniform_pass(items, coins, max).0[i]).id@
                != (#[trigger] uniform_pass(items, coins, max).1[j]).id@,
    decreases items.len(),
{
    if items.len() > 0 {
        let rest = items.drop_last();
        law_uniform_pass_deals_each_once(rest, coins, max);
        if distinct_ids(items) {
            let (a, b) = uniform_pass(rest, coins, max);
            let c = items.last();
            assert(distinct_ids(rest)) by {
                assert forall|i: int, j: int| 0 <= i < j < rest.len() implies (#[trigger] rest[i]).id@
                    != (#[trigger] rest[j]).id@ by {
                    assert(rest[i] == items[i] && rest[j] == items[j]);
                }
            }
            lemma_uniform_pass(rest, coins, max);
            assert forall|k: int| 0 <= k < a.len() implies (#[trigger] a[k]).id@ != c.id@ by {
                let q = choose|q: int| 0 <= q < rest.len() && rest[q] == a[k];
                assert(items[q] == a[k]);
                assert(items[items.len() - 1] == c);
            }
            assert forall|k: int| 0 <= k < b.len() implies (#[trigger] b[k]).id@ != c.id@ by {
                let q = choose|q: int| 0 <= q < rest.len() && rest[q] == b[k];
                assert(items[q] == b[k]);
                assert(items[items.len() - 1] == c);
            }
            let (ra, rb) = uniform_pass(items, coins, max);
            assert forall|i: int, j: int| 0 <= i < ra.len() && 0 <= j < rb.len() implies (#[trigger] ra[i]).id@
                != (#[trigger] rb[j]).id@ by {
                if i < a.len() && j < b.len() {
                    assert(ra[i] == a[i] && rb[j] == b[j]);
                } else if i < a.len() {
                    assert(ra[i] == a[i]);
                } else {
                    assert(rb[j] == b[j]);
                }
            }
        }
    }
}

/// When the children have room for every condition and no two conditions
/// compare the same operands, uniform dealing gives every condition to
/// exactly one child, the one its coin names: the children hold only dealt
/// conditions, together as many as were dealt, a condition whose coin came
/// up is in the first child, and one whose coin did not is in the second.
pub proof fn law_uniform_pass_follows_coins(items: Seq<ConditionInfo>, coins: Seq<bool>, max: nat)
    requires
        items.len() <= max,
        items.len() <= coins.len(),
        forall|i: int, j: int| 0 <= i < j < items.len() ==> !conflicts(#[trigger] items[j], seq![#[trigger] items[i]]),
    ensures
        within(uniform_pass(items, coins, max).0, items),
        within(uniform_pass(items, coins, max).1, items),
        uniform_pass(items, coins, max).0.len() + uniform_pass(items, coins, max).1.len() == items.len(),
        forall|k: int| 0 <= k < items.len() && coins[k] ==> uniform_pass(items, coins, max).0.contains(#[trigger] items[k]),
        forall|k: int| 0 <= k < items.len() && !coins[k] ==> uniform_pass(items, coins, max).1.contains(#[trigger] items[k]),
    decreases items.len(),
{
    if items.len() > 0 {
        let rest = items.drop_last();
        assert forall|i: int, j: int| 0 <= i < j < rest.len() implies !conflicts(#[trigger] rest[j], seq![#[trigger] rest[i]]) by {
            assert(rest[i] == items[i] && rest[j] == items[j]);
        }
        law_uniform_pass_follows_coins(rest, coins, max);
        let (a, b) = uniform_pass(rest, coins, max);
        let n = items.len() - 1;
        let c = items.last();
        assert(items[n] == c);
        assert forall|k: int| 0 <= k < a.len() implies !(comparable(#[trigger] a[k]) && operands_same(
            operands_of(c)->0,
            operands_of(a[k])->0,
        ) && comparable(c)) by {
            let q = choose|q: int| 0 <= q < rest.len() && rest[q] == a[k];
            assert(items[q] == a[k]);
            assert(!conflicts(items[n], seq![items[q]]));
            assert(seq![items[q]][0] == items[q]);
        }
        assert forall|k: int| 0 <= k < b.len() implies !(comparable(#[trigger] b[k]) && operands_same(
            operands_of(c)->0,
            operands_of(b[k])->0,
        ) && comparable(c)) by {
            let q = choose|q: int| 0 <= q < rest.len() && rest[q] == b[k];
            assert(items[q] == b[k]);
            assert(!conflicts(items[n], seq![items[q]]));
            assert(seq![items[q]][0] == items[q]);
        }
        assert(!conflicts(c, a));
        assert(!conflicts(c, b));
        let (ra, rb) = uniform_pass(items, coins, max);
        assert forall|k: int| 0 <= k < ra.len() implies items.contains(#[trigger] ra[k]) by {
            if k < a.len() {
                assert(ra[k] == a[k]);
                let q = choose|q: int| 0 <= q < rest.len() && rest[q] == a[k];
                assert(items[q] == a[k]);
            }
        }
        assert forall|k: int| 0 <= k < rb.len() implies items.contains(#[trigger] rb[k]) by {
            if k < b.len() {
                assert(rb[k] == b[k]);
                let q = choose|q: int| 0 <= q < rest.len() && rest[q] == b[k];
                assert(items[q] == b[k]);
            }
        }
        assert forall|k: int| 0 <= k < items.len() && coins[k] implies ra.contains(#[trigger] items[k]) by {
            if k < n {
                assert(rest[k] == items[k]);
                assert(a.contains(items[k]));
                let q = choose|q: int| 0 <= q < a.len() && a[q] == items[k];
                assert(ra[q] == a[q]);
            } else {
                assert(ra[ra.len() - 1] == c);
            }
        }
        assert forall|k: int| 0 <= k < items.len() && !coins[k] implies rb.contains(#[trigger] items[k]) by {
            if k < n {
                assert(rest[k] == items[k]);
                assert(b.contains(items[k]));
                let q = choose|q: int| 0 <= q < b.len() && b[q] == items[k];
                assert(rb[q] == b[q]);
            } else {
                assert(rb[rb.len() - 1] == c);
            }
        }
    }
}

/// Swapping handlers and timeframes touches nothing else, swaps nothing
/// when no flag is set, exchanges exactly what the flags name, and undoes
/// itself when done twice with the same flags.
pub proof fn law_swap_exchanges(c1: StrategyCandidateView, c2: StrategyCandidateView, stops: bool, takes: bool, frames: bool)
    ensures
        swapped(c1, c2, false, false, false) == (c1, c2),
        swapped(swapped(c1, c2, stops, takes, frames).0, swapped(c1, c2, stops, takes, frames).1, stops, takes, frames)
            == (c1, c2),
        (StrategyCandidateView {
            stop_handlers: c1.stop_handlers,
            take_handlers: c1.take_handlers,
            timeframes: c1.timeframes,
            ..swapped(c1, c2, stops, takes, frames).0
        }) == c1,
        (StrategyCandidateView {
            stop_handlers: c2.stop_handlers,
            take_handlers: c2.take_handlers,
            timeframes: c2.timeframes,
            ..swapped(c1, c2, stops, takes, frames).1
        }) == c2,
        swapped(c1, c2, stops, takes, frames).0.stop_handlers == (if stops { c2.stop_handlers } else { c1.stop_handlers }),
        swapped(c1, c2, stops, takes, frames).1.stop_handlers == (if stops { c1.stop_handlers } else { c2.stop_handlers }),
        swapped(c1, c2, stops, takes, frames).0.take_handlers == (if takes { c2.take_handlers } else { c1.take_handlers }),
        swapped(c1, c2, stops, takes, frames).1.take_handlers == (if takes { c1.take_handlers } else { c2.take_handlers }),
        swapped(c1, c2, stops, takes, frames).0.timeframes == (if frames { c2.timeframes } else { c1.timeframes }),
        swapped(c1, c2, stops, takes, frames).1.timeframes == (if frames { c1.timeframes } else { c2.timeframes }),
{
}

/// Weighted dealing to one child: the child holds only dealt conditions and
/// no more than the maximum; when it has room for every condition and no
/// two conditions compare the same operands, it holds exactly the
/// conditions whose coin came up, in their order.
pub proof fn law_weighted_pass_follows_coins(items: Seq<ConditionInfo>, coins: Seq<bool>, max: nat)
    ensures
        within(weighted_pass(items, coins, max), items),
        weighted_pass(items, coins, max).len() <= max,
        items.len() <= max && items.len() <= coins.len() && (forall|i: int, j: int|
            0 <= i < j < items.len() ==> !conflicts(#[trigger] items[j], seq![#[trigger] items[i]])) ==> forall|k: int|
            0 <= k < items.len() && coins[k] ==> weighted_pass(items, coins, max).contains(#[trigger] items[k]),
        items.len() <= max && items.len() <= coins.len() && (forall|i: int, j: int|
            0 <= i < j < items.len() ==> !conflicts(#[trigger] items[j], seq![#[trigger] items[i]]))
            ==> weighted_pass(items, coins, max).len() == coin_count(coins, items.len()),
    decreases items.len(),
{
    if items.len() > 0 {
        let rest = items.drop_last();
        law_weighted_pass_follows_coins(rest, coins, max);
        let prev = weighted_pass(rest, coins, max);
        let n = items.len() - 1;
        let c = items.last();
        assert(items[n] == c);
        let r = weighted_pass(items, coins, max);
        assert forall|k: int| 0 <= k < prev.len() implies items.contains(#[trigger] prev[k]) by {
            let j = choose|j: int| 0 <= j < rest.len() && rest[j] == prev[k];
            assert(items[j] == prev[k]);
        }
        assert forall|k: int| 0 <= k < r.len() implies items.contains(#[trigger] r[k]) by {
            if k < prev.len() {
                assert(r[k] == prev[k]);
            }
        }
        if items.len() <= max && items.len() <= coins.len() && (forall|i: int, j: int|
            0 <= i < j < items.len() ==> !conflicts(#[trigger] items[j], seq![#[trigger] items[i]])) {
            assert forall|i: int, j: int| 0 <= i < j < rest.len() implies !conflicts(#[trigger] rest[j], seq![#[trigger] rest[i]]) by {
                assert(rest[i] == items[i] && rest[j] == items[j]);
            }
            assert(prev.len() == coin_count(coins, rest.len()));
            lemma_coin_count_bound(coins, rest.len());
            if conflicts(c, prev) {
                let k = choose|k: int| 0 <= k < prev.len() && comparable(#[trigger] prev[k]) && operands_same(
                    operands_of(c)->0,
                    operands_of(prev[k])->0,
                );
                let q = choose|q: int| 0 <= q < rest.len() && rest[q] == prev[k];
                assert(items[q] == prev[k]);
                assert(seq![items[q]][0] == items[q]);
                assert(conflicts(items[n], seq![items[q]]));
            }
            assert forall|k: int| 0 <= k < items.len() && coins[k] implies r.contains(#[trigger] items[k]) by {
                if k < n {
                    assert(rest[k] == items[k]);
                    assert(prev.contains(items[k]));
                    let q = choose|q: int| 0 <= q < prev.len() && prev[q] == items[k];
                    assert(r[q] == prev[q]);
                } else {
                    assert(r[r.len() - 1] == c);
                }
            }
        }
    }
}

/// How many of the first `n` coins came up.
pub open spec fn coin_count(coins: Seq<bool>, n: nat) -> nat
    decreases n,
{
    if n == 0 {
        0
    } else {
        coin_count(coins, (n - 1) as nat) + if coins[n - 1] {
            1nat
        } else {
            0nat
        }
    }
}

proof fn lemma_coin_count_bound(coins: Seq<bool>, n: nat)
    ensures
        coin_count(coins, n) <= n,
    decreases n,
{
    if n > 0 {
        lemma_coin_count_bound(coins, (n - 1) as nat);
    }
}

} // verus!
