//! Selection for diversity: individuals are grouped by the structure of
//! their strategy, each group is ranked best first, and the groups are
//! picked from in turns, one individual per group and turn, until the
//! target size is reached.

use vstd::prelude::*;
use crate::model::{fitness_of, views_of, GeneticIndividual, GeneticIndividualView};
use crate::genetic::{candidate_signature_text, get_strategy_signature, lemma_filter_step};
use crate::signature::{parameters_signature_spec, CacheKey};
use crate::population::{by_fitness, law_by_fitness_ordered, law_by_fitness_rearranges, sort_by_fitness};
use crate::ranking::texts_of;
use crate::text::{owned, same_text};

verus! {

/// The key by which an individual is grouped: the structural signature of
/// its candidate or, without a candidate, "no_candidate_" and its
/// parameters in the order of their names.
pub open spec fn group_key(ind: GeneticIndividualView) -> Seq<char> {
    match ind.strategy.candidate {
        Some(c) => candidate_signature_text(c),
        None => "no_candidate_"@ + parameters_signature_spec(ind.strategy.parameters),
    }
}

/// The group keys of a list of individuals.
pub open spec fn group_keys(s: Seq<GeneticIndividualView>) -> Seq<Seq<char>> {
    s.map_values(|g: GeneticIndividualView| group_key(g))
}

/// The distinct keys, in the order of their first appearance.
pub open spec fn first_keys(keys: Seq<Seq<char>>) -> Seq<Seq<char>>
    decreases keys.len(),
{
    if keys.len() == 0 {
        keys
    } else {
        let prev = first_keys(keys.drop_last());
        if prev.contains(keys.last()) {
            prev
        } else {
            prev.push(keys.last())
        }
    }
}

/// The individuals with the key `k`, in their order.
pub open spec fn members(s: Seq<GeneticIndividualView>, k: Seq<char>) -> Seq<GeneticIndividualView> {
    s.filter(|g: GeneticIndividualView| group_key(g) == k)
}

/// The groups, in the order of their first member, each best first.
pub open spec fn diversity_groups(s: Seq<GeneticIndividualView>) -> Seq<Seq<GeneticIndividualView>> {
    first_keys(group_keys(s)).map_values(|k: Seq<char>| by_fitness(members(s, k), true))
}

/// Turn `r` of the picking: the individual at place `r` of each group that
/// has one, in the order of the groups.
pub open spec fn round_of(groups: Seq<Seq<GeneticIndividualView>>, r: int) -> Seq<GeneticIndividualView>
    decreases groups.len(),
{
    if groups.len() == 0 {
        Seq::empty()
    } else {
        round_of(groups.drop_last(), r) + if 0 <= r < groups.last().len() {
            seq![groups.last()[r]]
        } else {
            Seq::empty()
        }
    }
}

/// The first `n` turns, one after the other.
pub open spec fn rounds_upto(groups: Seq<Seq<GeneticIndividualView>>, n: nat) -> Seq<GeneticIndividualView>
    decreases n,
{
    if n == 0 {
        Seq::empty()
    } else {
        rounds_upto(groups, (n - 1) as nat) + round_of(groups, n - 1)
    }
}

/// The size of the largest group.
pub open spec fn longest(groups: Seq<Seq<GeneticIndividualView>>) -> nat
    decreases groups.len(),
{
    if groups.len() == 0 {
        0
    } else {
        let m = longest(groups.drop_last());
        if groups.last().len() > m {
            groups.last().len()
        } else {
            m
        }
    }
}

/// The first `n` items, or all of them when there are fewer.
pub open spec fn capped<A>(s: Seq<A>, n: nat) -> Seq<A> {
    if s.len() <= n {
        s
    } else {
        s.take(n as int)
    }
}

/// The individuals selected for diversity: every turn of picking over the
/// groups, cut to `target`.
pub open spec fn diverse_selection(s: Seq<GeneticIndividualView>, target: nat) -> Seq<GeneticIndividualView> {
    let gs = diversity_groups(s);
    capped(rounds_upto(gs, longest(gs)), target)
}

fn group_key_of(ind: &GeneticIndividual) -> (r: String)
    ensures
        r@ == group_key(ind@),
{
    match &ind.strategy.candidate {
        Some(c) => get_strategy_signature(c),
        None => {
            let mut r = owned("no_candidate_");
            let p = CacheKey::parameters_signature(&ind.strategy.parameters);
            r.append(p.as_str());
            r
        },
    }
}

fn holds_text(v: &Vec<String>, t: &str) -> (r: bool)
    ensures
        r == texts_of(v@).contains(t@),
{
    let mut i: usize = 0;
    while i < v.len()
        invariant
            i <= v@.len(),
            forall|j: int| 0 <= j < i ==> (#[trigger] v@[j])@ != t@,
        decreases v@.len() - i,
    {
        if same_text(v[i].as_str(), t) {
            assert(texts_of(v@)[i as int] == t@);
            return true;
        }
        i = i + 1;
    }
    assert forall|j: int| 0 <= j < texts_of(v@).len() implies #[trigger] texts_of(v@)[j] != t@ by {
        assert(texts_of(v@)[j] == v@[j]@);
    }
    false
}


/// Groups individuals by the structure of their strategy, ranks each group
/// best first, and picks from the groups in turns (the best of each group,
/// then the second of each, and so on, groups in the order of their first
/// member) until `target_size` individuals are picked or none are left.
pub fn select_with_diversity(individuals: Vec<GeneticIndividual>, target_size: usize) -> (r: Vec<GeneticIndividual>)
    ensures
        views_of(r@) == diverse_selection(views_of(individuals@), target_size as nat),
{
    let n = individuals.len();
    let ghost s = views_of(individuals@);
    let ghost ks = group_keys(s);
    let mut keys: Vec<String> = Vec::new();
    let mut first: Vec<String> = Vec::new();
    let mut i: usize = 0;
    while i < n
        invariant
            i <= n,
            n == individuals@.len(),
            s == views_of(individuals@),
            ks == group_keys(s),
            keys@.len() == i,
            forall|j: int| 0 <= j < i ==> (#[trigger] keys@[j])@ == ks[j],
            texts_of(first@) == first_keys(ks.take(i as int)),
        decreases n - i,
    {
        let k = group_key_of(&individuals[i]);
        assert(ks.take(i + 1).drop_last() =~= ks.take(i as int));
        assert(k@ == ks[i as int]);
        if !holds_text(&first, k.as_str()) {
            first.push(k.clone());
            assert(texts_of(first@) =~= first_keys(ks.take(i as int)).push(ks[i as int]));
        }
        keys.push(k);
        i = i + 1;
    }
    assert(ks.take(n as int) =~= ks);
    let ghost fk = first_keys(ks);
    let ghost gs = diversity_groups(s);
    let mut groups: Vec<Vec<GeneticIndividual>> = Vec::new();
    let mut g: usize = 0;
    while g < first.len()
        invariant
            g <= first@.len(),
            n == individuals@.len(),
            s == views_of(individuals@),
            ks == group_keys(s),
            fk == first_keys(ks),
            texts_of(first@) == fk,
            gs == diversity_groups(s),
            keys@.len() == n,
            forall|j: int| 0 <= j < n ==> (#[trigger] keys@[j])@ == ks[j],
            groups@.len() == g,
            forall|h: int| 0 <= h < g ==> views_of((#[trigger] groups@[h])@) == gs[h],
        decreases first@.len() - g,
    {
        let ghost key = fk[g as int];
        let ghost pred = |x: GeneticIndividualView| group_key(x) == key;
        let mut col: Vec<GeneticIndividual> = Vec::new();
        let mut i: usize = 0;
        while i < n
            invariant
                i <= n,
                g < first@.len(),
                n == individuals@.len(),
                s == views_of(individuals@),
                ks == group_keys(s),
                texts_of(first@) == fk,
                key == fk[g as int],
                pred == (|x: GeneticIndividualView| group_key(x) == key),
                keys@.len() == n,
                forall|j: int| 0 <= j < n ==> (#[trigger] keys@[j])@ == ks[j],
                views_of(col@) == s.take(i as int).filter(pred),
            decreases n - i,
        {
            proof {
                lemma_filter_step(s, pred, i as int);
                assert(first@[g as int]@ == key);
            }
            if same_text(keys[i].as_str(), first[g].as_str()) {
                let ghost before = views_of(col@);
                col.push(individuals[i].clone());
                assert(views_of(col@) =~= before.push(s[i as int]));
            }
            i = i + 1;
        }
        assert(s.take(n as int) =~= s);
        assert(views_of(col@) == members(s, key));
        let sorted = sort_by_fitness(&col, true);
        assert(views_of(sorted@) == gs[g as int]);
        groups.push(sorted);
        g = g + 1;
    }
    assert(groups@.len() == gs.len());
    let mut m: usize = 0;
    let mut g: usize = 0;
    while g < groups.len()
        invariant
            g <= groups@.len(),
            groups@.len() == gs.len(),
            forall|h: int| 0 <= h < gs.len() ==> views_of((#[trigger] groups@[h])@) == gs[h],
            m == longest(gs.take(g as int)),
        decreases groups@.len() - g,
    {
        assert(gs.take(g + 1).drop_last() =~= gs.take(g as int));
        assert(views_of(groups@[g as int]@).len() == groups@[g as int]@.len());
        if groups[g].len() > m {
            m = groups[g].len();
        }
        g = g + 1;
    }
    assert(gs.take(gs.len() as int) =~= gs);
    let mut selected: Vec<GeneticIndividual> = Vec::new();
    let mut r: usize = 0;
    while r < m
        invariant
            r <= m,
            m == longest(gs),
            groups@.len() == gs.len(),
            forall|h: int| 0 <= h < gs.len() ==> views_of((#[trigger] groups@[h])@) == gs[h],
            views_of(selected@) == capped(rounds_upto(gs, r as nat), target_size as nat),
        decreases m - r,
    {
        let mut g: usize = 0;
        while g < groups.len()
            invariant
                g <= groups@.len(),
                groups@.len() == gs.len(),
                forall|h: int| 0 <= h < gs.len() ==> views_of((#[trigger] groups@[h])@) == gs[h],
                views_of(selected@) == capped(
                    rounds_upto(gs, r as nat) + round_of(gs.take(g as int), r as int),
                    target_size as nat,
                ),
            decreases groups@.len() - g,
        {
            let ghost full = rounds_upto(gs, r as nat) + round_of(gs.take(g as int), r as int);
            let ghost before = views_of(selected@);
            assert(gs.take(g + 1).drop_last() =~= gs.take(g as int));
            assert(gs.take(g + 1).last() == gs[g as int]);
            assert(views_of(groups@[g as int]@).len() == groups@[g as int]@.len());
            if r < groups[g].len() {
                let ghost x = gs[g as int][r as int];
                assert(views_of(groups@[g as int]@)[r as int] == groups@[g as int]@[r as int]@);
                assert(full + seq![x] =~= rounds_upto(gs, r as nat) + round_of(gs.take(g + 1), r as int));
                if selected.len() < target_size {
                    selected.push(groups[g][r].clone());
                    assert(views_of(selected@) =~= before.push(x));
                } else {
                    assert(capped(full + seq![x], target_size as nat) =~= capped(full, target_size as nat));
                }
            } else {
                assert(full =~= rounds_upto(gs, r as nat) + round_of(gs.take(g + 1), r as int));
            }
            g = g + 1;
        }
        assert(gs.take(gs.len() as int) =~= gs);
        r = r + 1;
    }
    selected
}


proof fn lemma_first_keys(keys: Seq<Seq<char>>)
    ensures
        forall|j: int| 0 <= j < first_keys(keys).len() ==> keys.contains(#[trigger] first_keys(keys)[j]),
        forall|j: int| 0 <= j < keys.len() ==> first_keys(keys).contains(#[trigger] keys[j]),
        first_keys(keys).no_duplicates(),
    decreases keys.len(),
{
    if keys.len() > 0 {
        let rest = keys.drop_last();
        let prev = first_keys(rest);
        lemma_first_keys(rest);
        assert(keys[keys.len() - 1] == keys.last());
        assert forall|j: int| 0 <= j < prev.len() implies keys.contains(#[trigger] prev[j]) by {
            let m = choose|m: int| 0 <= m < rest.len() && rest[m] == prev[j];
            assert(keys[m] == prev[j]);
        }
        assert forall|j: int| 0 <= j < keys.len() implies first_keys(keys).contains(#[trigger] keys[j]) by {
            if j < rest.len() {
                assert(rest[j] == keys[j]);
                let m = choose|m: int| 0 <= m < prev.len() && prev[m] == rest[j];
                if !prev.contains(keys.last()) {
                    assert(prev.push(keys.last())[m] == prev[m]);
                }
            } else if !prev.contains(keys.last()) {
                assert(prev.push(keys.last())[prev.len() as int] == keys.last());
            }
        }
        if !prev.contains(keys.last()) {
            let r = prev.push(keys.last());
            assert forall|j: int| 0 <= j < r.len() implies keys.contains(#[trigger] r[j]) by {
                if j < prev.len() {
                    assert(r[j] == prev[j]);
                }
            }
        }
    }
}

proof fn lemma_groups_nonempty(s: Seq<GeneticIndividualView>)
    ensures
        forall|k: int| 0 <= k < diversity_groups(s).len() ==> (#[trigger] diversity_groups(s)[k]).len() > 0,
{
    let ks = group_keys(s);
    let fk = first_keys(ks);
    lemma_first_keys(ks);
    assert forall|k: int| 0 <= k < diversity_groups(s).len() implies (#[trigger] diversity_groups(s)[k]).len() > 0 by {
        let key = fk[k];
        assert(ks.contains(key));
        let i = choose|i: int| 0 <= i < ks.len() && ks[i] == key;
        let pred = |x: GeneticIndividualView| group_key(x) == key;
        assert(pred(s[i]));
        s.lemma_filter_contains(pred, i);
        assert(members(s, key).len() > 0);
        crate::population::law_by_fitness_rearranges(members(s, key), true);
    }
}

proof fn lemma_round_zero(gs: Seq<Seq<GeneticIndividualView>>)
    requires
        forall|k: int| 0 <= k < gs.len() ==> (#[trigger] gs[k]).len() > 0,
    ensures
        round_of(gs, 0).len() == gs.len(),
        forall|k: int| 0 <= k < gs.len() ==> #[trigger] round_of(gs, 0)[k] == gs[k][0],
    decreases gs.len(),
{
    if gs.len() > 0 {
        let rest = gs.drop_last();
        assert forall|k: int| 0 <= k < rest.len() implies (#[trigger] rest[k]).len() > 0 by {
            assert(rest[k] == gs[k]);
        }
        lemma_round_zero(rest);
        assert(gs[gs.len() - 1] == gs.last());
        assert forall|k: int| 0 <= k < gs.len() implies #[trigger] round_of(gs, 0)[k] == gs[k][0] by {
            if k < rest.len() {
                assert(rest[k] == gs[k]);
            }
        }
    }
}

proof fn lemma_longest(gs: Seq<Seq<GeneticIndividualView>>)
    ensures
        forall|k: int| 0 <= k < gs.len() ==> (#[trigger] gs[k]).len() <= longest(gs),
    decreases gs.len(),
{
    if gs.len() > 0 {
        let rest = gs.drop_last();
        lemma_longest(rest);
        assert forall|k: int| 0 <= k < gs.len() implies (#[trigger] gs[k]).len() <= longest(gs) by {
            if k < rest.len() {
                assert(rest[k] == gs[k]);
            }
        }
    }
}

proof fn lemma_rounds_start(gs: Seq<Seq<GeneticIndividualView>>, n: nat)
    requires
        n >= 1,
    ensures
        rounds_upto(gs, n).len() >= round_of(gs, 0).len(),
        forall|k: int| 0 <= k < round_of(gs, 0).len() ==> #[trigger] rounds_upto(gs, n)[k] == round_of(gs, 0)[k],
    decreases n,
{
    if n == 1 {
        assert(rounds_upto(gs, 0) == Seq::<GeneticIndividualView>::empty());
        assert(rounds_upto(gs, 1) =~= round_of(gs, 0));
    } else {
        lemma_rounds_start(gs, (n - 1) as nat);
    }
}

/// Up to the target, the first picks are the best individual of each group,
/// one per group, in the order of the groups' first members: no structure
/// gets a second pick before each has had its first.
pub proof fn law_best_of_each_group_first(s: Seq<GeneticIndividualView>, target: nat, k: int)
    requires
        0 <= k < target,
        k < diversity_groups(s).len(),
    ensures
        diverse_selection(s, target)[k] == diversity_groups(s)[k][0],
{
    let gs = diversity_groups(s);
    lemma_groups_nonempty(s);
    lemma_round_zero(gs);
    lemma_longest(gs);
    assert(gs[0].len() <= longest(gs));
    lemma_rounds_start(gs, longest(gs));
}


/// The number of individuals in all groups.
pub open spec fn total_len(gs: Seq<Seq<GeneticIndividualView>>) -> nat
    decreases gs.len(),
{
    if gs.len() == 0 {
        0
    } else {
        total_len(gs.drop_last()) + gs.last().len()
    }
}

/// The number of individuals in all groups, each group counted up to `n`.
pub open spec fn clipped_total(gs: Seq<Seq<GeneticIndividualView>>, n: nat) -> nat
    decreases gs.len(),
{
    if gs.len() == 0 {
        0
    } else {
        clipped_total(gs.drop_last(), n) + if gs.last().len() < n {
            gs.last().len()
        } else {
            n
        }
    }
}

/// The number of individuals with one of the keys.
pub open spec fn member_total(s: Seq<GeneticIndividualView>, keys: Seq<Seq<char>>) -> nat
    decreases keys.len(),
{
    if keys.len() == 0 {
        0
    } else {
        member_total(s, keys.drop_last()) + members(s, keys.last()).len()
    }
}

proof fn lemma_clipped_step(gs: Seq<Seq<GeneticIndividualView>>, n: nat)
    requires
        n >= 1,
    ensures
        clipped_total(gs, n) == clipped_total(gs, (n - 1) as nat) + round_of(gs, n - 1).len(),
    decreases gs.len(),
{
    if gs.len() > 0 {
        lemma_clipped_step(gs.drop_last(), n);
    }
}

proof fn lemma_rounds_len(gs: Seq<Seq<GeneticIndividualView>>, n: nat)
    ensures
        rounds_upto(gs, n).len() == clipped_total(gs, n),
    decreases n,
{
    if n == 0 {
        lemma_clipped_zero(gs);
    } else {
        lemma_rounds_len(gs, (n - 1) as nat);
        lemma_clipped_step(gs, n);
    }
}

proof fn lemma_clipped_zero(gs: Seq<Seq<GeneticIndividualView>>)
    ensures
        clipped_total(gs, 0) == 0,
    decreases gs.len(),
{
    if gs.len() > 0 {
        lemma_clipped_zero(gs.drop_last());
    }
}

proof fn lemma_clipped_full(gs: Seq<Seq<GeneticIndividualView>>, m: nat)
    requires
        forall|k: int| 0 <= k < gs.len() ==> (#[trigger] gs[k]).len() <= m,
    ensures
        clipped_total(gs, m) == total_len(gs),
    decreases gs.len(),
{
    if gs.len() > 0 {
        let rest = gs.drop_last();
        assert forall|k: int| 0 <= k < rest.len() implies (#[trigger] rest[k]).len() <= m by {
            assert(rest[k] == gs[k]);
        }
        assert(gs[gs.len() - 1] == gs.last());
        lemma_clipped_full(rest, m);
    }
}

proof fn lemma_groups_total(s: Seq<GeneticIndividualView>, keys: Seq<Seq<char>>)
    ensures
        total_len(keys.map_values(|k: Seq<char>| by_fitness(members(s, k), true))) == member_total(s, keys),
    decreases keys.len(),
{
    if keys.len() > 0 {
        let f = |k: Seq<char>| by_fitness(members(s, k), true);
        assert(keys.map_values(f).drop_last() =~= keys.drop_last().map_values(f));
        lemma_groups_total(s, keys.drop_last());
        crate::population::law_by_fitness_rearranges(members(s, keys.last()), true);
    }
}

proof fn lemma_members_last(s: Seq<GeneticIndividualView>, k: Seq<char>)
    requires
        s.len() > 0,
    ensures
        members(s, k).len() == members(s.drop_last(), k).len() + if group_key(s.last()) == k {
            1int
        } else {
            0int
        },
{
    let pred = |x: GeneticIndividualView| group_key(x) == k;
    lemma_filter_step(s, pred, s.len() - 1);
    assert(s.take(s.len() as int) =~= s);
    assert(s.take(s.len() - 1) =~= s.drop_last());
}

proof fn lemma_member_total_last(s: Seq<GeneticIndividualView>, keys: Seq<Seq<char>>)
    requires
        s.len() > 0,
        keys.no_duplicates(),
    ensures
        member_total(s, keys) == member_total(s.drop_last(), keys) + if keys.contains(group_key(s.last())) {
            1int
        } else {
            0int
        },
    decreases keys.len(),
{
    if keys.len() > 0 {
        let rest = keys.drop_last();
        assert(rest.no_duplicates());
        lemma_member_total_last(s, rest);
        lemma_members_last(s, keys.last());
        let kx = group_key(s.last());
        assert(keys[keys.len() - 1] == keys.last());
        if rest.contains(kx) {
            let j = choose|j: int| 0 <= j < rest.len() && rest[j] == kx;
            assert(keys[j] == kx);
            assert(keys.contains(kx));
            assert(keys.last() != kx);
        } else if keys.contains(kx) {
            let j = choose|j: int| 0 <= j < keys.len() && keys[j] == kx;
            if j < rest.len() {
                assert(rest[j] == kx);
            }
            assert(keys.last() == kx);
        }
    }
}

proof fn lemma_members_absent(s: Seq<GeneticIndividualView>, k: Seq<char>)
    requires
        !group_keys(s).contains(k),
    ensures
        members(s, k).len() == 0,
{
    let pred = |x: GeneticIndividualView| group_key(x) == k;
    if members(s, k).len() > 0 {
        s.lemma_filter_pred(pred, 0);
        s.lemma_filter_contains_rev(pred, members(s, k)[0]);
        let i = choose|i: int| 0 <= i < s.len() && s[i] == members(s, k)[0];
        assert(group_keys(s)[i] == k);
    }
}

proof fn lemma_member_total_all(s: Seq<GeneticIndividualView>)
    ensures
        member_total(s, first_keys(group_keys(s))) == s.len(),
    decreases s.len(),
{
    if s.len() > 0 {
        let rest = s.drop_last();
        let ks = group_keys(s);
        assert(ks.drop_last() =~= group_keys(rest));
        assert(ks.last() == group_key(s.last()));
        let kx = group_key(s.last());
        let fk0 = first_keys(group_keys(rest));
        lemma_member_total_all(rest);
        lemma_first_keys(group_keys(rest));
        lemma_first_keys(ks);
        if fk0.contains(kx) {
            lemma_member_total_last(s, fk0);
        } else {
            let fk = fk0.push(kx);
            assert(fk.drop_last() =~= fk0);
            lemma_member_total_last(s, fk0);
            lemma_members_last(s, kx);
            if group_keys(rest).contains(kx) {
                let j = choose|j: int| 0 <= j < group_keys(rest).len() && group_keys(rest)[j] == kx;
                assert(fk0.contains(group_keys(rest)[j]));
            }
            lemma_members_absent(rest, kx);
        }
    }
}

/// The selection holds as many individuals as the target asks for, or all
/// of them when there are fewer: every individual can be picked.
pub proof fn law_selection_size(s: Seq<GeneticIndividualView>, target: nat)
    ensures
        diverse_selection(s, target).len() == if s.len() < target {
            s.len()
        } else {
            target
        },
{
    let gs = diversity_groups(s);
    lemma_longest(gs);
    lemma_rounds_len(gs, longest(gs));
    lemma_clipped_full(gs, longest(gs));
    lemma_groups_total(s, first_keys(group_keys(s)));
    lemma_member_total_all(s);
}

/// Each group gathers individuals of one structure, best first, and no two
/// groups share a structure: every member of a group is one of the
/// individuals and has the key of the group's first member, none is fitter
/// than the first member, every individual with that key is in the group,
/// and the first members of two groups have different keys.
pub proof fn law_groups_by_structure(s: Seq<GeneticIndividualView>, g: int, h: int, i: int)
    requires
        0 <= g < diversity_groups(s).len(),
        0 <= h < diversity_groups(s).len(),
        0 <= i < diversity_groups(s)[g].len(),
    ensures
        s.contains(diversity_groups(s)[g][i]),
        group_key(diversity_groups(s)[g][i]) == group_key(diversity_groups(s)[g][0]),
        fitness_of(diversity_groups(s)[g][0]) >= fitness_of(diversity_groups(s)[g][i]),
        forall|x: GeneticIndividualView| #[trigger] s.contains(x) && group_key(x) == group_key(diversity_groups(s)[g][0])
            ==> diversity_groups(s)[g].contains(x),
        g != h ==> group_key(diversity_groups(s)[g][0]) != group_key(diversity_groups(s)[h][0]),
{
    broadcast use vstd::seq_lib::group_filter_ensures;

    let gs = diversity_groups(s);
    let fk = first_keys(group_keys(s));
    lemma_first_keys(group_keys(s));
    lemma_groups_nonempty(s);
    assert forall|q: int, m: int| 0 <= q < gs.len() && 0 <= m < gs[q].len() implies s.contains(#[trigger] gs[q][m])
        && group_key(gs[q][m]) == fk[q] by {
        let mem = members(s, fk[q]);
        assert(gs[q] == by_fitness(mem, true));
        law_by_fitness_rearranges(mem, true);
        assert(0 <= m < mem.len());
        assert(by_fitness(mem, true)[m] == gs[q][m]);
        assert(exists|j: int| 0 <= j < mem.len() && #[trigger] by_fitness(mem, true)[m] == mem[j]);
        let j = choose|j: int| 0 <= j < mem.len() && by_fitness(mem, true)[m] == mem[j];
        assert(gs[q][m] == mem[j]);
        assert(mem.contains(mem[j]));
        s.lemma_filter_contains_rev(|g: GeneticIndividualView| group_key(g) == fk[q], mem[j]);
    }
    assert(gs[g].len() > 0);
    assert(s.contains(gs[g][0]) && group_key(gs[g][0]) == fk[g]);
    assert(group_key(gs[g][i]) == fk[g]);
    if i > 0 {
        law_by_fitness_ordered(members(s, fk[g]), true, 0, i);
    }
    assert forall|x: GeneticIndividualView| #[trigger] s.contains(x) && group_key(x) == group_key(gs[g][0]) implies gs[g].contains(
        x,
    ) by {
        let mem = members(s, fk[g]);
        assert(mem.contains(x));
        let j = choose|j: int| 0 <= j < mem.len() && mem[j] == x;
        law_by_fitness_rearranges(mem, true);
        let k = choose|k: int| 0 <= k < mem.len() && by_fitness(mem, true)[k] == #[trigger] mem[j];
        assert(gs[g][k] == x);
    }
    if g != h {
        assert(gs[h].len() > 0);
        assert(group_key(gs[h][0]) == fk[h]);
    }
}

} // verus!
