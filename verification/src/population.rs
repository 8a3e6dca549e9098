//! Population bookkeeping of the genetic algorithm: ranking individuals by
//! fitness, elites, replacing the weakest, duplicate detection, islands and
//! migration between them.

use vstd::prelude::*;
use vstd::slice::*;
use crate::config::CandidateBuilderConfig;
use crate::model::{
    ParamEntry, fitness_of, views_of, GeneticIndividual, GeneticIndividualView, Population, PopulationView, TimeFrame,
};
use crate::signature::{create_signature, strategy_signature};
use crate::text::same_text;
use crate::genetic::{distinct_texts, has_text, insert_text};
use crate::ranking::{
    goes_before, lemma_rank_distinct, lemma_rank_onto, rank, key_less, key_ranks, lemma_key_less_total, lemma_sorted_at, order_from_ranks, stable_sorted,
};

verus! {

/// Settings of the genetic algorithm. Rates are in millionths.
pub struct GeneticAlgorithmConfig {
    pub population_size: usize,
    pub max_generations: usize,
    pub elitism_count: usize,
    pub crossover_rate: u32,
    pub mutation_rate: u32,
    pub islands_count: usize,
    pub migration_interval: usize,
    pub migration_rate: u32,
    pub fresh_blood_rate: u32,
    pub detect_duplicates: bool,
    pub restart_on_stagnation: bool,
    pub candidate_builder_config: Option<CandidateBuilderConfig>,
}

/// `n` scaled by a rate in millionths, rounded down.
pub open spec fn scaled_count(n: nat, rate: u32) -> nat {
    ((n * rate) / 1_000_000) as nat
}

/// `n` scaled by a rate in millionths, rounded down, and at most `limit`.
pub fn scaled_count_at_most(n: usize, rate: u32, limit: usize) -> (r: usize)
    ensures
        r == if scaled_count(n as nat, rate) < limit { scaled_count(n as nat, rate) } else { limit as nat },
{
    let a: u128 = n as u128;
    let b: u128 = rate as u128;
    assert(a * b <= 0xffff_ffff_ffff_ffffu128 * 0xffff_ffffu128) by (nonlinear_arith)
        requires
            a <= 0xffff_ffff_ffff_ffffu128,
            b <= 0xffff_ffffu128,
    ;
    let wide: u128 = a * b / 1_000_000;
    assert(wide == scaled_count(n as nat, rate));
    if wide < limit as u128 {
        wide as usize
    } else {
        limit
    }
}

/// The fitness keys of a list of individuals.
pub open spec fn fitness_keys(s: Seq<GeneticIndividualView>) -> Seq<i64> {
    s.map_values(|g: GeneticIndividualView| fitness_of(g))
}

/// The individuals in the stable order of their fitness: best first when
/// `desc`, weakest first otherwise; individuals of equal fitness keep their
/// order.
pub open spec fn by_fitness(s: Seq<GeneticIndividualView>, desc: bool) -> Seq<GeneticIndividualView> {
    stable_sorted(s, fitness_keys(s), key_less(desc))
}

/// Sorts individuals by fitness, stably: best first when `desc`.
pub fn sort_by_fitness(v: &Vec<GeneticIndividual>, desc: bool) -> (r: Vec<GeneticIndividual>)
    ensures
        views_of(r@) == by_fitness(views_of(v@), desc),
{
    let n = v.len();
    let ghost s = views_of(v@);
    let mut keys: Vec<i64> = Vec::new();
    let mut i: usize = 0;
    while i < n
        invariant
            i <= n,
            n == v@.len(),
            s == views_of(v@),
            keys@.len() == i,
            forall|j: int| 0 <= j < i ==> #[trigger] keys@[j] == fitness_of(s[j]),
        decreases n - i,
    {
        keys.push(v[i].fitness_key());
        i = i + 1;
    }
    assert(keys@ =~= fitness_keys(s));
    let ranks = key_ranks(&keys, desc);
    proof {
        lemma_key_less_total(desc);
    }
    let order = order_from_ranks::<i64>(&ranks, Ghost(keys@), Ghost(key_less(desc)));
    let mut r: Vec<GeneticIndividual> = Vec::new();
    let mut k: usize = 0;
    while k < n
        invariant
            k <= n,
            n == v@.len(),
            s == views_of(v@),
            keys@ == fitness_keys(s),
            crate::ranking::strict_total(key_less(desc)),
            order@.len() == n,
            forall|q: int| 0 <= q < n ==> #[trigger] order@[q] < n && crate::ranking::rank(keys@, key_less(desc), order@[q] as int) == q,
            r@.len() == k,
            forall|j: int| 0 <= j < k ==> (#[trigger] r@[j])@ == by_fitness(s, desc)[j],
        decreases n - k,
    {
        let idx = order[k];
        proof {
            lemma_sorted_at(s, keys@, key_less(desc), idx as int);
        }
        r.push(v[idx].clone());
        k = k + 1;
    }
    assert(views_of(r@) =~= by_fitness(s, desc));
    r
}

/// The `elitism_count` best individuals, best first; individuals of equal
/// fitness in their order in the population.
pub fn select_elites(population: &Population, elitism_count: usize) -> (r: Vec<GeneticIndividual>)
    ensures
        views_of(r@) == by_fitness(population@.individuals, true).take(
            if elitism_count < population@.individuals.len() { elitism_count as int } else { population@.individuals.len() as int },
        ),
{
    let sorted = sort_by_fitness(&population.individuals, true);
    let n = sorted.len();
    assert(views_of(sorted@).len() == sorted@.len());
    assert(n == population@.individuals.len());
    let take = if elitism_count < n {
        elitism_count
    } else {
        n
    };
    let mut r: Vec<GeneticIndividual> = Vec::new();
    let mut k: usize = 0;
    while k < take
        invariant
            k <= take,
            take <= n,
            n == sorted@.len(),
            r@.len() == k,
            forall|j: int| 0 <= j < k ==> (#[trigger] r@[j])@ == sorted@[j]@,
        decreases take - k,
    {
        r.push(sorted[k].clone());
        k = k + 1;
    }
    assert(views_of(r@) =~= views_of(sorted@).take(take as int));
    r
}

/// The population after replacing its weakest: sorted weakest first, the
/// first places, as many as the fresh-blood share of the population and at
/// most as many as there are newcomers, taken by the newcomers in order.
pub open spec fn replaced_weakest(
    s: Seq<GeneticIndividualView>,
    newcomers: Seq<GeneticIndividualView>,
    rate: u32,
) -> Seq<GeneticIndividualView> {
    let count = if scaled_count(s.len(), rate) < newcomers.len() {
        scaled_count(s.len(), rate)
    } else {
        newcomers.len()
    };
    Seq::new(s.len(), |k: int| if k < count { newcomers[k] } else { by_fitness(s, false)[k] })
}

/// The signatures of the strategies of a list of individuals.
pub open spec fn signatures(s: Seq<GeneticIndividualView>) -> Seq<Seq<char>> {
    s.map_values(|g: GeneticIndividualView| strategy_signature(g.strategy))
}

/// Position `i` repeats the signature of an earlier position.
pub open spec fn repeats_earlier(sigs: Seq<Seq<char>>, i: int) -> bool {
    exists|j: int| 0 <= j < i && sigs[j] == sigs[i]
}

/// The positions below `m` that repeat an earlier signature, in increasing
/// order.
pub open spec fn duplicate_positions(sigs: Seq<Seq<char>>, m: int) -> Seq<usize>
    decreases m,
{
    if m <= 0 {
        Seq::empty()
    } else {
        duplicate_positions(sigs, m - 1) + if repeats_earlier(sigs, m - 1) {
            seq![(m - 1) as usize]
        } else {
            Seq::empty()
        }
    }
}

/// Replaces weak and duplicate individuals by new ones.
pub struct FreshBloodSystem {
    config: GeneticAlgorithmConfig,
}

impl FreshBloodSystem {
    /// The settings the system was made with.
    pub closed spec fn settings(&self) -> GeneticAlgorithmConfig {
        self.config
    }

    pub fn new(config: GeneticAlgorithmConfig) -> (r: Self)
        ensures
            r.settings() == config,
    {
        FreshBloodSystem { config }
    }

    /// The positions of the individuals whose strategy has the signature of
    /// an earlier one, when duplicates are to be detected; none otherwise.
    pub fn detect_duplicates(&self, population: &Population) -> (r: Vec<usize>)
        ensures
            r@ == if self.settings().detect_duplicates {
                duplicate_positions(signatures(population@.individuals), population@.individuals.len() as int)
            } else {
                Seq::empty()
            },
    {
        if !self.config.detect_duplicates {
            return Vec::new();
        }
        let n = population.individuals.len();
        let ghost sigs = signatures(population@.individuals);
        assert(sigs.len() == n);
        let mut duplicates: Vec<usize> = Vec::new();
        let mut earlier: Vec<String> = Vec::new();
        let mut idx: usize = 0;
        while idx < n
            invariant
                idx <= n,
                n == population.individuals@.len(),
                sigs == signatures(population@.individuals),
                sigs.len() == n,
                duplicates@ == duplicate_positions(sigs, idx as int),
                earlier@.len() == idx,
                forall|j: int| 0 <= j < idx ==> (#[trigger] earlier@[j])@ == sigs[j],
            decreases n - idx,
        {
            let sig = create_signature(&population.individuals[idx].strategy);
            assert(sig@ == sigs[idx as int]);
            let mut found = false;
            let mut k: usize = 0;
            while k < idx
                invariant
                    k <= idx,
                    idx < n,
                    earlier@.len() == idx,
                    sig@ == sigs[idx as int],
                    forall|j: int| 0 <= j < idx ==> (#[trigger] earlier@[j])@ == sigs[j],
                    found == exists|j: int| 0 <= j < k && sigs[j] == sigs[idx as int],
                decreases idx - k,
            {
                if same_text(earlier[k].as_str(), sig.as_str()) {
                    found = true;
                }
                k = k + 1;
            }
            if found {
                duplicates.push(idx);
            }
            earlier.push(sig);
            idx = idx + 1;
        }
        duplicates
    }

    /// Sorts the population weakest first and puts the newcomers in the
    /// first places, as many as the fresh-blood share of the population.
    pub fn replace_weakest(&self, population: &mut Population, new_individuals: Vec<GeneticIndividual>)
        ensures
            final(population)@ == (PopulationView {
                individuals: replaced_weakest(
                    old(population)@.individuals,
                    views_of(new_individuals@),
                    self.settings().fresh_blood_rate,
                ),
                ..old(population)@
            }),
    {
        let n = population.individuals.len();
        let count = scaled_count_at_most(n, self.config.fresh_blood_rate, new_individuals.len());
        let sorted = sort_by_fitness(&population.individuals, false);
        let ghost s = old(population)@.individuals;
        assert(views_of(sorted@).len() == sorted@.len());
        assert(n == s.len());
        let ghost fresh = views_of(new_individuals@);
        let mut result: Vec<GeneticIndividual> = Vec::new();
        let mut k: usize = 0;
        while k < n
            invariant
                k <= n,
                n == sorted@.len(),
                n == s.len(),
                count <= new_individuals@.len(),
                fresh == views_of(new_individuals@),
                views_of(sorted@) == by_fitness(s, false),
                count == (if scaled_count(s.len(), self.config.fresh_blood_rate) < fresh.len() {
                    scaled_count(s.len(), self.config.fresh_blood_rate)
                } else {
                    fresh.len()
                }),
                result@.len() == k,
                forall|j: int| 0 <= j < k ==> (#[trigger] result@[j])@ == replaced_weakest(s, fresh, self.config.fresh_blood_rate)[j],
            decreases n - k,
        {
            if k < count {
                result.push(new_individuals[k].clone());
            } else {
                result.push(sorted[k].clone());
            }
            k = k + 1;
        }
        population.individuals = result;
        assert(views_of(population.individuals@) =~= replaced_weakest(s, fresh, self.config.fresh_blood_rate));
    }
}


/// The positions to refresh: the duplicates, then, while they are fewer
/// than the fresh-blood share `count` of `n` individuals, the positions from
/// their number up to `count` (at most `n`).
pub open spec fn refresh_plan(dups: Seq<usize>, count: nat, n: nat) -> Seq<usize> {
    let upto = if count < n {
        count
    } else {
        n
    };
    if dups.len() < count && dups.len() < upto {
        dups + Seq::new((upto - dups.len()) as nat, |k: int| (dups.len() + k) as usize)
    } else {
        dups
    }
}

/// A newcomer as it joins a population: on the population's island, if it
/// has one, and of its generation.
pub open spec fn refreshed(ind: GeneticIndividualView, island: Option<usize>, generation: usize) -> GeneticIndividualView {
    GeneticIndividualView {
        island_id: if island is Some {
            island
        } else {
            ind.island_id
        },
        generation,
        ..ind
    }
}

/// The individuals after the first `m` replacements of the plan: the `i`-th
/// newcomer takes the `i`-th planned position, where both exist; a later
/// replacement of a position overrides an earlier one.
pub open spec fn fresh_applied(
    s: Seq<GeneticIndividualView>,
    plan: Seq<usize>,
    fresh: Seq<GeneticIndividualView>,
    island: Option<usize>,
    generation: usize,
    m: int,
) -> Seq<GeneticIndividualView>
    decreases m,
{
    if m <= 0 {
        s
    } else {
        let prev = fresh_applied(s, plan, fresh, island, generation, m - 1);
        let i = m - 1;
        if i < fresh.len() && i < plan.len() && plan[i] < prev.len() {
            prev.update(plan[i] as int, refreshed(fresh[i], island, generation))
        } else {
            prev
        }
    }
}

impl FreshBloodSystem {
    /// Plans a fresh-blood injection: the duplicates to replace and, when
    /// they are fewer than the fresh-blood share of the population, the
    /// population sorted weakest first (stably) and the positions from
    /// their number up to that share added to the plan.
    pub fn plan_fresh_blood(&self, population: &mut Population) -> (r: Vec<usize>)
        ensures
            ({
                let s = old(population)@.individuals;
                let dups = if self.settings().detect_duplicates {
                    duplicate_positions(signatures(s), s.len() as int)
                } else {
                    Seq::empty()
                };
                let count = scaled_count(s.len(), self.settings().fresh_blood_rate);
                &&& r@ == refresh_plan(dups, count, s.len())
                &&& final(population)@ == if dups.len() < count {
                    PopulationView { individuals: by_fitness(s, false), ..old(population)@ }
                } else {
                    old(population)@
                }
            }),
    {
        let mut plan = self.detect_duplicates(population);
        let n = population.individuals.len();
        let a: u128 = n as u128;
        let b: u128 = self.config.fresh_blood_rate as u128;
        assert(a * b <= 0xffff_ffff_ffff_ffffu128 * 0xffff_ffffu128) by (nonlinear_arith)
            requires
                a <= 0xffff_ffff_ffff_ffffu128,
                b <= 0xffff_ffffu128,
        ;
        let count: u128 = a * b / 1_000_000;
        let ghost dups = plan@;
        let ghost s = population@.individuals;
        assert(s.len() == n);
        assert(count == scaled_count(n as nat, self.config.fresh_blood_rate));
        if (plan.len() as u128) < count {
            let sorted = sort_by_fitness(&population.individuals, false);
            population.individuals = sorted;
            let upto: usize = if count < n as u128 {
                count as usize
            } else {
                n
            };
            let start = plan.len();
            let mut i: usize = start;
            while i < upto
                invariant
                    start <= i,
                    i <= upto || i == start,
                    start == dups.len(),
                    plan@ == dups + Seq::new((i - start) as nat, |k: int| (start + k) as usize),
                decreases upto - i,
            {
                plan.push(i);
                i = i + 1;
                assert(plan@ =~= dups + Seq::new((i - start) as nat, |k: int| (start + k) as usize));
            }
            assert(plan@ =~= refresh_plan(dups, count as nat, n as nat));
        }
        plan
    }

    /// Puts newcomers in the planned positions, as `fresh_applied` says:
    /// each takes the population's island, if it has one, and generation.
    pub fn apply_fresh_blood(&self, population: &mut Population, to_replace: &Vec<usize>, new_individuals: Vec<GeneticIndividual>)
        ensures
            final(population)@ == (PopulationView {
                individuals: fresh_applied(
                    old(population)@.individuals,
                    to_replace@,
                    views_of(new_individuals@),
                    old(population)@.island_id,
                    old(population)@.generation,
                    to_replace@.len() as int,
                ),
                ..old(population)@
            }),
    {
        let ghost s = population@.individuals;
        let ghost fresh = views_of(new_individuals@);
        let mut i: usize = 0;
        while i < to_replace.len()
            invariant
                i <= to_replace@.len(),
                fresh == views_of(new_individuals@),
                population@.island_id == old(population)@.island_id,
                population@.generation == old(population)@.generation,
                population@.individuals == fresh_applied(
                    s,
                    to_replace@,
                    fresh,
                    old(population)@.island_id,
                    old(population)@.generation,
                    i as int,
                ),
            decreases to_replace@.len() - i,
        {
            let idx = to_replace[i];
            assert(population@.individuals.len() == population.individuals@.len());
            if i < new_individuals.len() && idx < population.individuals.len() {
                let mut ind = new_individuals[i].clone();
                match population.island_id {
                    Some(id) => {
                        ind.island_id = Some(id);
                    },
                    None => {},
                }
                ind.generation = population.generation;
                let ghost before = population@.individuals;
                let ghost x = ind@;
                population.individuals.set(idx, ind);
                assert(population@.individuals =~= before.update(idx as int, x));
            }
            i = i + 1;
        }
    }
}

/// The views of a list of populations.
pub open spec fn population_views(v: Seq<Population>) -> Seq<PopulationView> {
    v.map_values(|p: Population| p@)
}

/// The islands made from the initial populations: as many as the settings
/// ask and as there are populations, the `i`-th a copy of the `i`-th
/// population marked as island `i`.
pub open spec fn initial_islands(initial: Seq<PopulationView>, islands_count: usize) -> Seq<PopulationView> {
    let n = if islands_count < initial.len() { islands_count as int } else { initial.len() as int };
    Seq::new(n as nat, |i: int| PopulationView { island_id: Some(i as usize), ..initial[i] })
}

/// Populations evolving apart on islands.
pub struct IslandManager {
    config: GeneticAlgorithmConfig,
    islands: Vec<Population>,
}

impl IslandManager {
    /// The settings the manager was made with.
    pub closed spec fn settings(&self) -> GeneticAlgorithmConfig {
        self.config
    }

    /// The islands.
    pub closed spec fn islands_view(&self) -> Seq<PopulationView> {
        population_views(self.islands@)
    }

    pub fn new(config: GeneticAlgorithmConfig, initial_populations: Vec<Population>) -> (r: Self)
        ensures
            r.settings() == config,
            r.islands_view() == initial_islands(population_views(initial_populations@), config.islands_count),
    {
        let count = if config.islands_count < initial_populations.len() {
            config.islands_count
        } else {
            initial_populations.len()
        };
        let ghost init = population_views(initial_populations@);
        let mut islands: Vec<Population> = Vec::new();
        let mut i: usize = 0;
        while i < count
            invariant
                i <= count,
                count <= initial_populations@.len(),
                init == population_views(initial_populations@),
                islands@.len() == i,
                forall|j: int| 0 <= j < i ==> (#[trigger] islands@[j])@ == (PopulationView {
                    island_id: Some(j as usize),
                    ..init[j]
                }),
            decreases count - i,
        {
            let mut population = initial_populations[i].clone();
            population.island_id = Some(i);
            islands.push(population);
            i = i + 1;
        }
        assert(population_views(islands@) =~= initial_islands(init, config.islands_count));
        IslandManager { config, islands }
    }

    pub fn get_all_islands(&self) -> (r: &[Population])
        ensures
            population_views(r@) == self.islands_view(),
    {
        self.islands.as_slice()
    }

    pub fn get_all_islands_mut(&mut self) -> (r: &mut [Population])
        ensures
            population_views(r@) == old(self).islands_view(),
            population_views(final(r)@) == final(self).islands_view(),
            final(self).settings() == old(self).settings(),
    {
        self.islands.as_mut_slice()
    }

    pub fn islands_count(&self) -> (r: usize)
        ensures
            r == self.islands_view().len(),
    {
        self.islands.len()
    }

    /// Migration happens every `migration_interval` generations, never at
    /// generation 0.
    pub fn should_migrate(&self, generation: usize) -> (r: bool)
        requires
            generation > 0 ==> self.settings().migration_interval > 0,
        ensures
            r == (generation > 0 && generation % self.settings().migration_interval == 0),
    {
        generation > 0 && generation % self.config.migration_interval == 0
    }
}


/// The error type of the anyhow crate, which migration declares and never
/// returns.
#[verifier::external_type_specification]
#[verifier::external_body]
pub struct ExAnyhowError(anyhow::Error);

/// The migrants an island sends: its best individuals, best first, as many
/// as `count` and as it has.
pub open spec fn emigrants(p: PopulationView, count: nat) -> Seq<GeneticIndividualView> {
    let sorted = by_fitness(p.individuals, true);
    sorted.take(if count < sorted.len() { count as int } else { sorted.len() as int })
}

/// An island after receiving migrants: when there are any, it is sorted
/// weakest first and its first places are taken by the migrants in order,
/// each marked as belonging to island `idx`.
pub open spec fn received(p: PopulationView, incoming: Seq<GeneticIndividualView>, idx: int) -> PopulationView {
    if incoming.len() == 0 {
        p
    } else {
        let sorted = by_fitness(p.individuals, false);
        PopulationView {
            individuals: Seq::new(
                sorted.len(),
                |k: int|
                    if k < incoming.len() {
                        GeneticIndividualView { island_id: Some(idx as usize), ..incoming[k] }
                    } else {
                        sorted[k]
                    },
            ),
            ..p
        }
    }
}

/// The islands after one migration of `count` individuals per island: each
/// island receives the migrants of the next one, the last those of the
/// first. With fewer than two islands, or nobody to move, nothing changes.
pub open spec fn migrated(islands: Seq<PopulationView>, count: nat) -> Seq<PopulationView> {
    if islands.len() < 2 || count == 0 {
        islands
    } else {
        Seq::new(
            islands.len(),
            |i: int| received(islands[i], emigrants(islands[(i + 1) % (islands.len() as int)], count), i),
        )
    }
}

/// Moves the best individuals between islands.
pub struct MigrationSystem {
    config: GeneticAlgorithmConfig,
}

impl MigrationSystem {
    /// The settings the system was made with.
    pub closed spec fn settings(&self) -> GeneticAlgorithmConfig {
        self.config
    }

    pub fn new(config: GeneticAlgorithmConfig) -> (r: Self)
        ensures
            r.settings() == config,
    {
        MigrationSystem { config }
    }

    /// Each island sends its best individuals, as many as the migration
    /// share of the population size, to the island before it, where they
    /// take the places of the weakest.
    pub fn migrate_between_islands(&self, islands: &mut [Population]) -> (r: Result<(), anyhow::Error>)
        ensures
            r is Ok,
            population_views(final(islands)@) == migrated(
                population_views(old(islands)@),
                scaled_count(self.settings().population_size as nat, self.settings().migration_rate),
            ),
    {
        let n = islands.len();
        let ghost start = population_views(islands@);
        let ghost count = scaled_count(self.config.population_size as nat, self.config.migration_rate);
        if n < 2 {
            return Ok(());
        }
        if scaled_count_at_most(self.config.population_size, self.config.migration_rate, 1) == 0 {
            return Ok(());
        }
        let mut outgoing: Vec<Vec<GeneticIndividual>> = Vec::new();
        let mut i: usize = 0;
        while i < n
            invariant
                i <= n,
                n == islands@.len(),
                start == population_views(islands@),
                count == scaled_count(self.config.population_size as nat, self.config.migration_rate),
                outgoing@.len() == i,
                forall|j: int| 0 <= j < i ==> views_of((#[trigger] outgoing@[j])@) == emigrants(start[j], count),
            decreases n - i,
        {
            let sorted = sort_by_fitness(&islands[i].individuals, true);
            let take = scaled_count_at_most(self.config.population_size, self.config.migration_rate, sorted.len());
            assert(views_of(sorted@).len() == sorted@.len());
            let mut chosen: Vec<GeneticIndividual> = Vec::new();
            let mut k: usize = 0;
            while k < take
                invariant
                    k <= take,
                    take <= sorted@.len(),
                    chosen@.len() == k,
                    forall|q: int| 0 <= q < k ==> (#[trigger] chosen@[q])@ == sorted@[q]@,
                decreases take - k,
            {
                chosen.push(sorted[k].clone());
                k = k + 1;
            }
            assert(views_of(chosen@) =~= emigrants(start[i as int], count));
            outgoing.push(chosen);
            i = i + 1;
        }
        let ghost goal = migrated(start, count);
        let mut idx: usize = 0;
        while idx < n
            invariant
                idx <= n,
                n == islands@.len(),
                n >= 2,
                count > 0,
                start.len() == n,
                goal == migrated(start, count),
                outgoing@.len() == n,
                forall|j: int| 0 <= j < n ==> views_of((#[trigger] outgoing@[j])@) == emigrants(start[j], count),
                forall|j: int| 0 <= j < idx ==> (#[trigger] islands@[j])@ == goal[j],
                forall|j: int| idx <= j < n ==> (#[trigger] islands@[j])@ == start[j],
            decreases n - idx,
        {
            let target = (idx + 1) % n;
            let incoming = &outgoing[target];
            assert(views_of(incoming@).len() == incoming@.len());
            if incoming.len() > 0 {
                let sorted = sort_by_fitness(&islands[idx].individuals, false);
                assert(views_of(sorted@).len() == sorted@.len());
                let ghost want = goal[idx as int];
                let mut individuals: Vec<GeneticIndividual> = Vec::new();
                let mut k: usize = 0;
                while k < sorted.len()
                    invariant
                        k <= sorted@.len(),
                        idx < n,
                        views_of(sorted@) == by_fitness(start[idx as int].individuals, false),
                        views_of(incoming@) == emigrants(start[target as int], count),
                        incoming@.len() > 0,
                        want == received(start[idx as int], emigrants(start[target as int], count), idx as int),
                        individuals@.len() == k,
                        forall|q: int| 0 <= q < k ==> (#[trigger] individuals@[q])@ == want.individuals[q],
                    decreases sorted@.len() - k,
                {
                    if k < incoming.len() {
                        let mut migrant = incoming[k].clone();
                        migrant.island_id = Some(idx);
                        individuals.push(migrant);
                    } else {
                        individuals.push(sorted[k].clone());
                    }
                    k = k + 1;
                }
                let population = Population {
                    individuals,
                    generation: islands[idx].generation,
                    island_id: islands[idx].island_id,
                };
                assert(population@.individuals =~= want.individuals);
                islands.set(idx, population);
            } else {
                assert(goal[idx as int] == start[idx as int]);
            }
            idx = idx + 1;
        }
        assert(population_views(islands@) =~= goal);
        Ok(())
    }
}

/// In the order by fitness, no individual is fitter (best first) or weaker
/// (weakest first) than one placed before it.
pub proof fn law_by_fitness_ordered(s: Seq<GeneticIndividualView>, desc: bool, a: int, b: int)
    requires
        0 <= a < b < s.len(),
    ensures
        desc ==> fitness_of(by_fitness(s, desc)[a]) >= fitness_of(by_fitness(s, desc)[b]),
        !desc ==> fitness_of(by_fitness(s, desc)[a]) <= fitness_of(by_fitness(s, desc)[b]),
{
    let keys = fitness_keys(s);
    let less = key_less(desc);
    lemma_key_less_total(desc);
    lemma_rank_onto(keys, less, a);
    lemma_rank_onto(keys, less, b);
    let i = choose|i: int| 0 <= i < keys.len() && rank(keys, less, i) == a;
    let j = choose|j: int| 0 <= j < keys.len() && rank(keys, less, j) == b;
    lemma_sorted_at(s, keys, less, i);
    lemma_sorted_at(s, keys, less, j);
    lemma_rank_distinct(keys, less, j, i);
    assert(!goes_before(keys, less, j, i));
}

/// The order by fitness rearranges the individuals: each individual stands
/// somewhere in it, and each place holds one of the individuals.
pub proof fn law_by_fitness_rearranges(s: Seq<GeneticIndividualView>, desc: bool)
    ensures
        by_fitness(s, desc).len() == s.len(),
        forall|i: int| 0 <= i < s.len() ==> exists|k: int| 0 <= k < s.len() && by_fitness(s, desc)[k] == #[trigger] s[i],
        forall|k: int| 0 <= k < s.len() ==> exists|i: int| 0 <= i < s.len() && #[trigger] by_fitness(s, desc)[k] == s[i],
{
    let keys = fitness_keys(s);
    let less = key_less(desc);
    lemma_key_less_total(desc);
    assert forall|i: int| 0 <= i < s.len() implies exists|k: int| 0 <= k < s.len() && by_fitness(s, desc)[k] == #[trigger] s[i] by {
        lemma_sorted_at(s, keys, less, i);
        let k = rank(keys, less, i) as int;
        assert(0 <= k < s.len() && by_fitness(s, desc)[k] == s[i]);
    }
    assert forall|k: int| 0 <= k < s.len() implies exists|i: int| 0 <= i < s.len() && #[trigger] by_fitness(s, desc)[k] == s[i] by {
        lemma_rank_onto(keys, less, k);
        let i = choose|i: int| 0 <= i < keys.len() && rank(keys, less, i) == k;
        lemma_sorted_at(s, keys, less, i);
    }
}

/// Replacing the weakest keeps the size of the population.
pub proof fn law_replace_weakest_keeps_size(
    s: Seq<GeneticIndividualView>,
    newcomers: Seq<GeneticIndividualView>,
    rate: u32,
)
    ensures
        replaced_weakest(s, newcomers, rate).len() == s.len(),
{
}

/// Migration keeps the number of islands and, on each island, the number of
/// individuals, the generation and the island's id.
pub proof fn law_migration_keeps_islands(islands: Seq<PopulationView>, count: nat)
    ensures
        migrated(islands, count).len() == islands.len(),
        forall|i: int| 0 <= i < islands.len() ==> {
            &&& (#[trigger] migrated(islands, count)[i]).individuals.len() == islands[i].individuals.len()
            &&& migrated(islands, count)[i].generation == islands[i].generation
            &&& migrated(islands, count)[i].island_id == islands[i].island_id
        },
{
    assert forall|i: int| 0 <= i < islands.len() implies {
        &&& (#[trigger] migrated(islands, count)[i]).individuals.len() == islands[i].individuals.len()
        &&& migrated(islands, count)[i].generation == islands[i].generation
        &&& migrated(islands, count)[i].island_id == islands[i].island_id
    } by {
        let p = islands[i];
        assert(by_fitness(p.individuals, false).len() == p.individuals.len());
    }
}

/// The duplicates reported are exactly the positions that repeat an earlier
/// signature, each once and in increasing order.
pub proof fn law_duplicates_exact(sigs: Seq<Seq<char>>, m: int)
    requires
        0 <= m <= sigs.len(),
        sigs.len() <= usize::MAX,
    ensures
        forall|k: int| 0 <= k < duplicate_positions(sigs, m).len() ==> {
            &&& (#[trigger] duplicate_positions(sigs, m)[k]) < m
            &&& repeats_earlier(sigs, duplicate_positions(sigs, m)[k] as int)
        },
        forall|a: int, b: int| 0 <= a < b < duplicate_positions(sigs, m).len() ==>
            #[trigger] duplicate_positions(sigs, m)[a] < #[trigger] duplicate_positions(sigs, m)[b],
        forall|i: int| 0 <= i < m && #[trigger] repeats_earlier(sigs, i) ==> duplicate_positions(sigs, m).contains(
            i as usize,
        ),
    decreases m,
{
    if m > 0 {
        law_duplicates_exact(sigs, m - 1);
        let prev = duplicate_positions(sigs, m - 1);
        let cur = duplicate_positions(sigs, m);
        assert forall|k: int| 0 <= k < prev.len() implies #[trigger] cur[k] == prev[k] by {}
        assert forall|k: int| 0 <= k < cur.len() implies {
            &&& (#[trigger] cur[k]) < m
            &&& repeats_earlier(sigs, cur[k] as int)
        } by {
            if k < prev.len() {
                assert(cur[k] == prev[k]);
            } else {
                assert(cur[k] == (m - 1) as usize);
            }
        }
        assert forall|a: int, b: int| 0 <= a < b < cur.len() implies #[trigger] cur[a] < #[trigger] cur[b] by {
            assert(cur[a] == prev[a]);
            if b < prev.len() {
                assert(cur[b] == prev[b]);
            } else {
                assert(cur[b] == (m - 1) as usize);
            }
        }
        assert forall|i: int| 0 <= i < m && #[trigger] repeats_earlier(sigs, i) implies cur.contains(i as usize) by {
            if i < m - 1 {
                let k = choose|k: int| 0 <= k < prev.len() && prev[k] == i as usize;
                assert(cur[k] == prev[k]);
            } else {
                assert(cur[prev.len() as int] == (m - 1) as usize);
            }
        }
    }
}


/// Optimises the parameters of one strategy structure, on a base timeframe.
pub struct PerStructureOptimizer {
    config: GeneticAlgorithmConfig,
    base_timeframe: TimeFrame,
}

impl PerStructureOptimizer {
    /// The settings the optimiser was made with.
    pub closed spec fn settings(&self) -> GeneticAlgorithmConfig {
        self.config
    }

    /// The base timeframe of the optimiser.
    pub closed spec fn base(&self) -> TimeFrame {
        self.base_timeframe
    }

    pub fn new(config: GeneticAlgorithmConfig, base_timeframe: TimeFrame) -> (r: Self)
        ensures
            r.settings() == config,
            r.base() == base_timeframe,
    {
        PerStructureOptimizer { config, base_timeframe }
    }
}

/// Settings of population management. Rates are in millionths.
#[derive(Clone, Copy, Debug, PartialEq, Eq, Structural)]
pub struct PopulationConfig {
    pub size: usize,
    pub elitism_count: usize,
    pub crossover_rate: u32,
    pub mutation_rate: u32,
}

impl Default for PopulationConfig {
    /// A hundred individuals, five elites, crossover at 70% and mutation at
    /// 10%.
    fn default() -> (r: Self)
        ensures
            r == (PopulationConfig { size: 100, elitism_count: 5, crossover_rate: 700_000, mutation_rate: 100_000 }),
    {
        PopulationConfig { size: 100, elitism_count: 5, crossover_rate: 700_000, mutation_rate: 100_000 }
    }
}

/// The value of the parameter `name`: that of its first entry.
pub open spec fn param_value(ps: Seq<ParamEntry>, name: Seq<char>) -> Option<Seq<char>>
    decreases ps.len(),
{
    if ps.len() == 0 {
        None
    } else {
        match param_value(ps.drop_last(), name) {
            Some(v) => Some(v),
            None => if ps.last().name@ == name {
                Some(ps.last().value@)
            } else {
                None
            },
        }
    }
}

/// What the value of a parameter means: it is there exactly when an entry
/// has its name, and it is the value of the first one.
pub proof fn lemma_param_value(ps: Seq<ParamEntry>, name: Seq<char>)
    ensures
        match param_value(ps, name) {
            Some(v) => exists|j: int|
                0 <= j < ps.len() && (#[trigger] ps[j]).name@ == name && ps[j].value@ == v,
            None => forall|j: int| 0 <= j < ps.len() ==> (#[trigger] ps[j]).name@ != name,
        },
    decreases ps.len(),
{
    if ps.len() > 0 {
        lemma_param_value(ps.drop_last(), name);
        match param_value(ps.drop_last(), name) {
            Some(v) => {
                let j = choose|j: int| 0 <= j < ps.drop_last().len() && (#[trigger] ps.drop_last()[j]).name@ == name
                    && ps.drop_last()[j].value@ == v;
                assert(ps[j] == ps.drop_last()[j]);
            },
            None => {
                assert forall|j: int| 0 <= j < ps.len() - 1 implies (#[trigger] ps[j]).name@ != name by {
                    assert(ps[j] == ps.drop_last()[j]);
                }
            },
        }
    }
}

/// No two entries share a name.
pub open spec fn distinct_names(ps: Seq<ParamEntry>) -> bool {
    forall|i: int, j: int| 0 <= i < j < ps.len() ==> (#[trigger] ps[i]).name@ != (#[trigger] ps[j]).name@
}

/// Manages the parameters of a population: crossover and elitism.
pub struct PopulationManager {
    pub config: PopulationConfig,
}

fn lookup_param(ps: &Vec<ParamEntry>, name: &String) -> (r: Option<String>)
    ensures
        match r {
            Some(v) => param_value(ps@, name@) == Some(v@),
            None => param_value(ps@, name@) is None,
        },
{
    proof {
        lemma_param_value(ps@, name@);
    }
    let mut i: usize = 0;
    while i < ps.len()
        invariant
            i <= ps@.len(),
            forall|j: int| 0 <= j < i ==> (#[trigger] ps@[j]).name@ != name@,
            param_value(ps@.take(i as int), name@) is None,
        decreases ps@.len() - i,
    {
        assert(ps@.take(i + 1).drop_last() =~= ps@.take(i as int));
        if crate::text::same_text(ps[i].name.as_str(), name.as_str()) {
            assert(param_value(ps@.take(i + 1), name@) == Some(ps@[i as int].value@));
            proof {
                lemma_param_value_prefix(ps@, name@, i + 1);
            }
            return Some(ps[i].value.clone());
        }
        i = i + 1;
    }
    assert(ps@.take(ps@.len() as int) =~= ps@);
    None
}

/// A parameter found in a prefix keeps its value in the whole list.
proof fn lemma_param_value_prefix(ps: Seq<ParamEntry>, name: Seq<char>, k: int)
    requires
        0 <= k <= ps.len(),
        param_value(ps.take(k), name) is Some,
    ensures
        param_value(ps, name) == param_value(ps.take(k), name),
    decreases ps.len() - k,
{
    if k < ps.len() {
        assert(ps.take(k + 1).drop_last() =~= ps.take(k));
        lemma_param_value_prefix(ps, name, k + 1);
    } else {
        assert(ps.take(k) =~= ps);
    }
}

fn push_param(ps: &mut Vec<ParamEntry>, name: &String, value: &Option<String>)
    ensures
        final(ps)@ == match value {
            Some(v) => old(ps)@.push(ParamEntry { name: *name, value: *v }),
            None => old(ps)@,
        },
{
    match value {
        Some(v) => {
            ps.push(ParamEntry { name: name.clone(), value: v.clone() });
        },
        None => {},
    }
}

impl PopulationManager {
    pub fn new(config: PopulationConfig) -> (r: Self)
        ensures
            r.config == config,
    {
        PopulationManager { config }
    }

    /// Sorts the population best first and puts the elites, in order, in
    /// its first places.
    pub fn apply_elitism(&self, population: &mut Population, elites: Vec<GeneticIndividual>)
        ensures
            final(population)@ == (PopulationView {
                individuals: Seq::new(
                    old(population)@.individuals.len(),
                    |k: int|
                        if k < elites@.len() {
                            elites@[k]@
                        } else {
                            by_fitness(old(population)@.individuals, true)[k]
                        },
                ),
                ..old(population)@
            }),
    {
        let ghost s = population@.individuals;
        let sorted = sort_by_fitness(&population.individuals, true);
        let n = sorted.len();
        assert(views_of(sorted@).len() == sorted@.len());
        let mut result: Vec<GeneticIndividual> = Vec::new();
        let mut k: usize = 0;
        while k < n
            invariant
                k <= n,
                n == sorted@.len(),
                n == s.len(),
                views_of(sorted@) == by_fitness(s, true),
                result@.len() == k,
                forall|j: int| 0 <= j < k ==> (#[trigger] result@[j])@ == (if j < elites@.len() {
                    elites@[j]@
                } else {
                    by_fitness(s, true)[j]
                }),
            decreases n - k,
        {
            if k < elites.len() {
                result.push(elites[k].clone());
            } else {
                result.push(sorted[k].clone());
            }
            k = k + 1;
        }
        population.individuals = result;
        assert(views_of(population.individuals@) =~= Seq::new(
            s.len(),
            |k: int|
                if k < elites@.len() {
                    elites@[k]@
                } else {
                    by_fitness(s, true)[k]
                },
        ));
    }

    /// With the probability of the crossover rate, two children whose
    /// parameters mix those of the parents: each parameter that a parent
    /// has goes, with its value from one parent, to one child, and with its
    /// value from the other parent to the other child, the parent being
    /// drawn for each parameter. Otherwise none.
    pub fn crossover(&self, parent1: &GeneticIndividual, parent2: &GeneticIndividual) -> (r: Option<
        (Vec<ParamEntry>, Vec<ParamEntry>),
    >)
        ensures
            self.config.crossover_rate == 0 ==> r is None,
            self.config.crossover_rate >= 1_000_000 ==> r is Some,
            r matches Some((c1, c2)) ==> {
                &&& distinct_names(c1@)
                &&& distinct_names(c2@)
                &&& forall|n: Seq<char>|
                    #![trigger param_value(c1@, n)]
                    #![trigger param_value(c2@, n)]
                    {
                        let v1 = param_value(parent1.strategy.parameters@, n);
                        let v2 = param_value(parent2.strategy.parameters@, n);
                        (param_value(c1@, n) == v1 && param_value(c2@, n) == v2) || (param_value(c1@, n) == v2
                            && param_value(c2@, n) == v1)
                    }
            },
    {
        let mut rng = crate::random::new_rng();
        let rate = if self.config.crossover_rate > 1_000_000 {
            1_000_000
        } else {
            self.config.crossover_rate
        };
        if !crate::random::random_ratio(&mut rng, rate, 1_000_000) {
            return None;
        }
        let p1 = &parent1.strategy.parameters;
        let p2 = &parent2.strategy.parameters;
        let mut keys: Vec<String> = Vec::new();
        let mut i: usize = 0;
        while i < p1.len()
            invariant
                i <= p1@.len(),
                distinct_texts(keys@),
                forall|j: int| 0 <= j < i ==> has_text(keys@, (#[trigger] p1@[j]).name@),
            decreases p1@.len() - i,
        {
            keys = insert_text(keys, &p1[i].name);
            i = i + 1;
        }
        let mut i: usize = 0;
        while i < p2.len()
            invariant
                i <= p2@.len(),
                distinct_texts(keys@),
                forall|j: int| 0 <= j < p1@.len() ==> has_text(keys@, (#[trigger] p1@[j]).name@),
                forall|j: int| 0 <= j < i ==> has_text(keys@, (#[trigger] p2@[j]).name@),
            decreases p2@.len() - i,
        {
            keys = insert_text(keys, &p2[i].name);
            i = i + 1;
        }
        let mut child1: Vec<ParamEntry> = Vec::new();
        let mut child2: Vec<ParamEntry> = Vec::new();
        let mut k: usize = 0;
        while k < keys.len()
            invariant
                k <= keys@.len(),
                distinct_texts(keys@),
                distinct_names(child1@),
                distinct_names(child2@),
                forall|j: int| 0 <= j < child1@.len() ==> exists|q: int| 0 <= q < k && (#[trigger] child1@[j]).name@ == keys@[q]@,
                forall|j: int| 0 <= j < child2@.len() ==> exists|q: int| 0 <= q < k && (#[trigger] child2@[j]).name@ == keys@[q]@,
                forall|n: Seq<char>|
                    #![trigger param_value(child1@, n)]
                    #![trigger param_value(child2@, n)]
                    {
                        let v1 = param_value(p1@, n);
                        let v2 = param_value(p2@, n);
                        if exists|q: int| 0 <= q < k && (#[trigger] keys@[q])@ == n {
                            (param_value(child1@, n) == v1 && param_value(child2@, n) == v2) || (param_value(
                                child1@,
                                n,
                            ) == v2 && param_value(child2@, n) == v1)
                        } else {
                            param_value(child1@, n) is None && param_value(child2@, n) is None
                        }
                    },
            decreases keys@.len() - k,
        {
            let key = &keys[k];
            let v1 = lookup_param(p1, key);
            let v2 = lookup_param(p2, key);
            let swap = !crate::random::random_ratio(&mut rng, 1, 2);
            let ghost c1_before = child1@;
            let ghost c2_before = child2@;
            if !swap {
                push_param(&mut child1, key, &v1);
                push_param(&mut child2, key, &v2);
            } else {
                push_param(&mut child1, key, &v2);
                push_param(&mut child2, key, &v1);
            }
            proof {
                lemma_param_value(c1_before, key@);
                lemma_param_value(c2_before, key@);
                assert forall|j: int| 0 <= j < c1_before.len() implies (#[trigger] c1_before[j]).name@ != key@ by {
                    let q = choose|q: int| 0 <= q < k && (#[trigger] c1_before[j]).name@ == keys@[q]@;
                    assert(keys@[q]@ != keys@[k as int]@);
                }
                assert forall|j: int| 0 <= j < c2_before.len() implies (#[trigger] c2_before[j]).name@ != key@ by {
                    let q = choose|q: int| 0 <= q < k && (#[trigger] c2_before[j]).name@ == keys@[q]@;
                    assert(keys@[q]@ != keys@[k as int]@);
                }
                assert forall|j: int| 0 <= j < child1@.len() implies exists|q: int| 0 <= q < k + 1 && (#[trigger] child1@[j]).name@
                    == keys@[q]@ by {
                    if j < c1_before.len() {
                        assert(child1@[j] == c1_before[j]);
                    } else {
                        assert(child1@[j].name@ == keys@[k as int]@);
                    }
                }
                assert forall|j: int| 0 <= j < child2@.len() implies exists|q: int| 0 <= q < k + 1 && (#[trigger] child2@[j]).name@
                    == keys@[q]@ by {
                    if j < c2_before.len() {
                        assert(child2@[j] == c2_before[j]);
                    } else {
                        assert(child2@[j].name@ == keys@[k as int]@);
                    }
                }
                assert forall|n: Seq<char>|
                    #![trigger param_value(child1@, n)]
                    #![trigger param_value(child2@, n)]
                    {
                        let w1 = param_value(p1@, n);
                        let w2 = param_value(p2@, n);
                        if exists|q: int| 0 <= q < k + 1 && (#[trigger] keys@[q])@ == n {
                            (param_value(child1@, n) == w1 && param_value(child2@, n) == w2) || (param_value(
                                child1@,
                                n,
                            ) == w2 && param_value(child2@, n) == w1)
                        } else {
                            param_value(child1@, n) is None && param_value(child2@, n) is None
                        }
                    } by {
                    let b1 = param_value(c1_before, n);
                    let b2 = param_value(c2_before, n);
                    if child1@.len() > c1_before.len() {
                        assert(child1@.drop_last() =~= c1_before);
                    } else {
                        assert(child1@ =~= c1_before);
                    }
                    if child2@.len() > c2_before.len() {
                        assert(child2@.drop_last() =~= c2_before);
                    } else {
                        assert(child2@ =~= c2_before);
                    }
                    if n == key@ {
                        assert(0 <= k < k + 1 && keys@[k as int]@ == n);
                        assert forall|q: int| 0 <= q < k implies (#[trigger] keys@[q])@ != n by {
                            assert(keys@[q]@ != keys@[k as int]@);
                        }
                        assert(b1 is None && b2 is None);
                    } else {
                        if exists|q: int| 0 <= q < k + 1 && (#[trigger] keys@[q])@ == n {
                            let q = choose|q: int| 0 <= q < k + 1 && (#[trigger] keys@[q])@ == n;
                            assert(q < k);
                        }
                        if exists|q: int| 0 <= q < k && (#[trigger] keys@[q])@ == n {
                            let q = choose|q: int| 0 <= q < k && (#[trigger] keys@[q])@ == n;
                            assert(0 <= q < k + 1 && keys@[q]@ == n);
                        }
                    }
                }
            }
            k = k + 1;
        }
        proof {
            assert forall|n: Seq<char>|
                #![trigger param_value(child1@, n)]
                #![trigger param_value(child2@, n)]
                {
                    let v1 = param_value(p1@, n);
                    let v2 = param_value(p2@, n);
                    (param_value(child1@, n) == v1 && param_value(child2@, n) == v2) || (param_value(child1@, n) == v2
                        && param_value(child2@, n) == v1)
                } by {
                if !(exists|q: int| 0 <= q < keys@.len() && (#[trigger] keys@[q])@ == n) {
                    lemma_param_value(p1@, n);
                    lemma_param_value(p2@, n);
                    assert forall|j: int| 0 <= j < p1@.len() implies (#[trigger] p1@[j]).name@ != n by {
                        assert(has_text(keys@, p1@[j].name@));
                    }
                    assert forall|j: int| 0 <= j < p2@.len() implies (#[trigger] p2@[j]).name@ != n by {
                        assert(has_text(keys@, p2@[j].name@));
                    }
                }
            }
        }
        Some((child1, child2))
    }
}

/// The elites are the fittest: as many as asked for (all individuals when
/// there are fewer), each one of the population, and no individual of the
/// population left out of them is fitter than any of them.
pub proof fn law_elites_fittest(s: Seq<GeneticIndividualView>, count: nat)
    ensures
        ({
            let m = if count < s.len() { count as int } else { s.len() as int };
            let elites = by_fitness(s, true).take(m);
            &&& elites.len() == m
            &&& forall|a: int| 0 <= a < m ==> s.contains(#[trigger] elites[a])
            &&& forall|a: int, i: int|
                0 <= a < m && 0 <= i < s.len() ==> fitness_of(#[trigger] elites[a]) >= fitness_of(#[trigger] s[i])
                    || elites.contains(s[i])
        }),
{
    let m = if count < s.len() { count as int } else { s.len() as int };
    let bf = by_fitness(s, true);
    let elites = bf.take(m);
    law_by_fitness_rearranges(s, true);
    assert forall|a: int| 0 <= a < m implies s.contains(#[trigger] elites[a]) by {
        assert(elites[a] == bf[a]);
        let i = choose|i: int| 0 <= i < s.len() && #[trigger] bf[a] == s[i];
    }
    assert forall|a: int, i: int| 0 <= a < m && 0 <= i < s.len() implies fitness_of(#[trigger] elites[a]) >= fitness_of(
        #[trigger] s[i],
    ) || elites.contains(s[i]) by {
        let k = choose|k: int| 0 <= k < s.len() && bf[k] == #[trigger] s[i];
        assert(elites[a] == bf[a]);
        if k < m {
            assert(elites[k] == s[i]);
        } else if a < k {
            law_by_fitness_ordered(s, true, a, k);
        }
    }
}

/// Replacing the weakest replaces only the weakest: the newcomers take the
/// first places, in order; every individual kept is one of the population,
/// and none of those replaced is fitter than any of those kept.
pub proof fn law_replace_weakest_drops_weakest(
    s: Seq<GeneticIndividualView>,
    newcomers: Seq<GeneticIndividualView>,
    rate: u32,
)
    ensures
        ({
            let cnt = if scaled_count(s.len(), rate) < newcomers.len() {
                scaled_count(s.len(), rate) as int
            } else {
                newcomers.len() as int
            };
            let r = replaced_weakest(s, newcomers, rate);
            &&& forall|k: int| 0 <= k < cnt && k < s.len() ==> #[trigger] r[k] == newcomers[k]
            &&& forall|k: int| cnt <= k < s.len() ==> s.contains(#[trigger] r[k])
            &&& forall|j: int, k: int|
                0 <= j < cnt && cnt <= k < s.len() ==> fitness_of(#[trigger] by_fitness(s, false)[j]) <= fitness_of(
                    #[trigger] r[k],
                )
        }),
{
    let cnt = if scaled_count(s.len(), rate) < newcomers.len() {
        scaled_count(s.len(), rate) as int
    } else {
        newcomers.len() as int
    };
    let r = replaced_weakest(s, newcomers, rate);
    let bf = by_fitness(s, false);
    law_by_fitness_rearranges(s, false);
    assert forall|k: int| cnt <= k < s.len() implies s.contains(#[trigger] r[k]) by {
        assert(r[k] == bf[k]);
        let i = choose|i: int| 0 <= i < s.len() && #[trigger] bf[k] == s[i];
    }
    assert forall|j: int, k: int| 0 <= j < cnt && cnt <= k < s.len() implies fitness_of(#[trigger] bf[j]) <= fitness_of(
        #[trigger] r[k],
    ) by {
        assert(r[k] == bf[k]);
        law_by_fitness_ordered(s, false, j, k);
    }
}

} // verus!
