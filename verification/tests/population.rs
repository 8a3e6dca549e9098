use strategy_optimizer::model::{EvaluatedStrategy, GeneticIndividual, ParamEntry, Population, TimeFrame};
use strategy_optimizer::population::{
    select_elites, FreshBloodSystem, GeneticAlgorithmConfig, IslandManager, MigrationSystem, PerStructureOptimizer,
};

/// The order key of a fitness value: larger keys for larger values.
fn key(f: f64) -> i64 {
    let b = f.to_bits() as i64;
    if b < 0 {
        b ^ i64::MAX
    } else {
        b
    }
}

fn rate(r: f64) -> u32 {
    (r * 1_000_000.0).round() as u32
}

fn base_config() -> GeneticAlgorithmConfig {
    GeneticAlgorithmConfig {
        population_size: 100,
        max_generations: 50,
        elitism_count: 5,
        crossover_rate: rate(0.7),
        mutation_rate: rate(0.1),
        islands_count: 1,
        migration_interval: 10,
        migration_rate: rate(0.05),
        fresh_blood_rate: rate(0.1),
        detect_duplicates: true,
        restart_on_stagnation: false,
        candidate_builder_config: None,
    }
}

fn param(name: &str, value: &str) -> ParamEntry {
    ParamEntry { name: name.to_string(), value: value.to_string() }
}

fn individual(fitness: f64, island_id: Option<usize>) -> GeneticIndividual {
    GeneticIndividual {
        strategy: EvaluatedStrategy {
            candidate: None,
            parameters: vec![param("param1", "Number(10.0)")],
            fitness: Some(key(fitness)),
        },
        generation: 0,
        island_id,
    }
}

fn population(individuals: Vec<GeneticIndividual>, island_id: Option<usize>) -> Population {
    Population { individuals, generation: 0, island_id }
}

fn fitnesses(p: &Population) -> Vec<i64> {
    p.individuals.iter().map(|i| i.strategy.fitness.unwrap()).collect()
}

#[test]
fn test_fresh_blood_system_new() {
    let config = GeneticAlgorithmConfig { detect_duplicates: true, fresh_blood_rate: rate(0.1), ..base_config() };
    let _system = FreshBloodSystem::new(config);
    assert!(true);
}

#[test]
fn test_detect_duplicates_disabled() {
    let config = GeneticAlgorithmConfig { detect_duplicates: false, ..base_config() };
    let system = FreshBloodSystem::new(config);
    let population = population(vec![individual(1.0, None), individual(2.0, None)], None);
    let duplicates = system.detect_duplicates(&population);
    assert_eq!(duplicates.len(), 0);
}

#[test]
fn test_detect_duplicates_no_duplicates() {
    let config = GeneticAlgorithmConfig { detect_duplicates: true, fresh_blood_rate: rate(0.1), ..base_config() };
    let system = FreshBloodSystem::new(config);
    let ind1 = individual(1.0, None);
    let mut ind2 = individual(2.0, None);
    ind2.strategy.parameters.push(param("param2", "Number(20.0)"));
    let population = population(vec![ind1, ind2], None);
    let duplicates = system.detect_duplicates(&population);
    assert_eq!(duplicates.len(), 0);
}

#[test]
fn test_replace_weakest() {
    let config = GeneticAlgorithmConfig { detect_duplicates: true, fresh_blood_rate: rate(0.1), ..base_config() };
    let system = FreshBloodSystem::new(config);
    let mut population =
        population(vec![individual(1.0, None), individual(2.0, None), individual(3.0, None)], None);
    let new_individuals = vec![individual(10.0, None)];
    system.replace_weakest(&mut population, new_individuals);
    assert_eq!(population.individuals.len(), 3);
}

#[test]
fn test_replace_weakest_empty_new() {
    let config = GeneticAlgorithmConfig { detect_duplicates: true, fresh_blood_rate: rate(0.1), ..base_config() };
    let system = FreshBloodSystem::new(config);
    let mut population = population(vec![individual(1.0, None), individual(2.0, None)], None);
    system.replace_weakest(&mut population, vec![]);
    assert_eq!(population.individuals.len(), 2);
}

#[test]
fn detect_duplicates_reports_repeats() {
    let system = FreshBloodSystem::new(base_config());
    let p = population(
        vec![individual(1.0, None), individual(2.0, None), individual(3.0, None)],
        None,
    );
    assert_eq!(system.detect_duplicates(&p), vec![1, 2]);
}

#[test]
fn replace_weakest_takes_the_weakest_places() {
    let config = GeneticAlgorithmConfig { fresh_blood_rate: rate(0.5), ..base_config() };
    let system = FreshBloodSystem::new(config);
    let mut p = population(
        vec![individual(3.0, None), individual(1.0, None), individual(4.0, None), individual(2.0, None)],
        None,
    );
    system.replace_weakest(&mut p, vec![individual(10.0, None), individual(11.0, None), individual(12.0, None)]);
    assert_eq!(fitnesses(&p), vec![key(10.0), key(11.0), key(3.0), key(4.0)]);
}

#[test]
fn elites_are_the_best_first() {
    let p = population(
        vec![individual(3.0, None), individual(5.0, None), individual(1.0, None), individual(5.0, Some(9))],
        None,
    );
    let elites = select_elites(&p, 3);
    let keys: Vec<i64> = elites.iter().map(|i| i.strategy.fitness.unwrap()).collect();
    assert_eq!(keys, vec![key(5.0), key(5.0), key(3.0)]);
    assert_eq!(elites[0].island_id, None);
    assert_eq!(elites[1].island_id, Some(9));
    assert_eq!(select_elites(&p, 10).len(), 4);
}

#[test]
fn unevaluated_individuals_rank_as_zero() {
    let mut none = individual(0.0, None);
    none.strategy.fitness = None;
    let p = population(vec![individual(-1.0, None), none, individual(1.0, None)], None);
    let elites = select_elites(&p, 3);
    assert_eq!(elites[0].strategy.fitness, Some(key(1.0)));
    assert_eq!(elites[1].strategy.fitness, None);
}

fn island_config() -> GeneticAlgorithmConfig {
    GeneticAlgorithmConfig { islands_count: 3, migration_interval: 5, ..base_config() }
}

#[test]
fn test_island_manager_new() {
    let populations = vec![population(vec![], Some(0)), population(vec![], Some(1)), population(vec![], Some(2))];
    let manager = IslandManager::new(island_config(), populations);
    assert_eq!(manager.islands_count(), 3);
}

#[test]
fn test_island_manager_limits_islands() {
    let populations = vec![
        population(vec![], Some(0)),
        population(vec![], Some(1)),
        population(vec![], Some(2)),
        population(vec![], Some(3)),
    ];
    let manager = IslandManager::new(island_config(), populations);
    assert_eq!(manager.islands_count(), 3);
}

#[test]
fn test_get_all_islands() {
    let populations = vec![population(vec![], Some(0)), population(vec![], Some(1))];
    let manager = IslandManager::new(island_config(), populations);
    let islands = manager.get_all_islands();
    assert_eq!(islands.len(), 2);
}

#[test]
fn test_should_migrate() {
    let populations = vec![population(vec![], Some(0))];
    let manager = IslandManager::new(island_config(), populations);
    assert!(!manager.should_migrate(0));
    assert!(!manager.should_migrate(4));
    assert!(manager.should_migrate(5));
    assert!(!manager.should_migrate(6));
    assert!(manager.should_migrate(10));
}

#[test]
fn no_migration_at_the_first_generation_whatever_the_interval() {
    let populations = vec![population(vec![], Some(0))];
    let manager = IslandManager::new(GeneticAlgorithmConfig { migration_interval: 0, ..island_config() }, populations);
    assert!(!manager.should_migrate(0));
}

#[test]
fn islands_are_numbered() {
    let populations = vec![population(vec![individual(1.0, None)], Some(7)), population(vec![], None)];
    let mut manager = IslandManager::new(island_config(), populations);
    assert_eq!(manager.get_all_islands()[0].island_id, Some(0));
    assert_eq!(manager.get_all_islands()[1].island_id, Some(1));
    manager.get_all_islands_mut()[1].generation = 4;
    assert_eq!(manager.get_all_islands()[1].generation, 4);
}

fn migration_config() -> GeneticAlgorithmConfig {
    GeneticAlgorithmConfig { population_size: 10, migration_rate: rate(0.1), ..base_config() }
}

#[test]
fn test_migration_system_new() {
    let _system = MigrationSystem::new(migration_config());
    assert!(true);
}

#[test]
fn test_migrate_between_islands_empty() {
    let system = MigrationSystem::new(migration_config());
    let mut islands: Vec<Population> = vec![];
    let result = system.migrate_between_islands(&mut islands);
    assert!(result.is_ok());
}

#[test]
fn test_migrate_between_islands_single() {
    let system = MigrationSystem::new(migration_config());
    let mut islands = vec![population(vec![], None)];
    let result = system.migrate_between_islands(&mut islands);
    assert!(result.is_ok());
}

#[test]
fn test_migrate_between_islands_multiple() {
    let system = MigrationSystem::new(migration_config());
    let mut islands = vec![
        population(vec![individual(1.0, Some(0)), individual(2.0, Some(0)), individual(3.0, Some(0))], Some(0)),
        population(vec![individual(4.0, Some(1)), individual(5.0, Some(1)), individual(6.0, Some(1))], Some(1)),
    ];
    let result = system.migrate_between_islands(&mut islands);
    assert!(result.is_ok());
}

#[test]
fn migration_moves_the_best_to_the_previous_island() {
    let system = MigrationSystem::new(migration_config());
    let mut islands = vec![
        population(vec![individual(2.0, Some(0)), individual(1.0, Some(0)), individual(3.0, Some(0))], Some(0)),
        population(vec![individual(4.0, Some(1)), individual(6.0, Some(1)), individual(5.0, Some(1))], Some(1)),
    ];
    system.migrate_between_islands(&mut islands).unwrap();
    assert_eq!(fitnesses(&islands[0]), vec![key(6.0), key(2.0), key(3.0)]);
    assert_eq!(islands[0].individuals[0].island_id, Some(0));
    assert_eq!(fitnesses(&islands[1]), vec![key(3.0), key(5.0), key(6.0)]);
    assert_eq!(islands[1].individuals[0].island_id, Some(1));
    assert_eq!(islands[0].individuals.len(), 3);
    assert_eq!(islands[1].individuals.len(), 3);
}

#[test]
fn no_migration_when_share_rounds_to_zero() {
    let config = GeneticAlgorithmConfig { population_size: 5, migration_rate: rate(0.1), ..base_config() };
    let system = MigrationSystem::new(config);
    let mut islands = vec![
        population(vec![individual(2.0, Some(0))], Some(0)),
        population(vec![individual(4.0, Some(1))], Some(1)),
    ];
    system.migrate_between_islands(&mut islands).unwrap();
    assert_eq!(fitnesses(&islands[0]), vec![key(2.0)]);
    assert_eq!(fitnesses(&islands[1]), vec![key(4.0)]);
}


use strategy_optimizer::population::{PopulationConfig, PopulationManager};

fn individual_with(fitness: f64, params: Vec<ParamEntry>) -> GeneticIndividual {
    GeneticIndividual {
        strategy: EvaluatedStrategy { candidate: None, parameters: params, fitness: Some(key(fitness)) },
        generation: 0,
        island_id: None,
    }
}

fn value_of(ps: &[ParamEntry], name: &str) -> Option<String> {
    ps.iter().find(|p| p.name == name).map(|p| p.value.clone())
}

#[test]
fn test_population_config_default() {
    let config = PopulationConfig::default();
    assert_eq!(config.size, 100);
    assert_eq!(config.elitism_count, 5);
    assert_eq!(config.crossover_rate, rate(0.7));
    assert_eq!(config.mutation_rate, rate(0.1));
}

#[test]
fn test_population_manager_new() {
    let config = PopulationConfig::default();
    let manager = PopulationManager::new(config);
    assert_eq!(manager.config.size, 100);
}

#[test]
fn test_crossover_success() {
    let config = PopulationConfig { crossover_rate: rate(1.0), ..Default::default() };
    let manager = PopulationManager::new(config);
    let params1 = vec![param("param1", "Number(10.0)"), param("param2", "Number(20.0)")];
    let params2 = vec![param("param1", "Number(15.0)"), param("param3", "Number(30.0)")];
    let parent1 = individual_with(1.0, params1);
    let parent2 = individual_with(2.0, params2);
    let result = manager.crossover(&parent1, &parent2);
    assert!(result.is_some());
    let (child1, child2) = result.unwrap();
    assert!(!child1.is_empty() || !child2.is_empty());
}

#[test]
fn test_crossover_fails_rate() {
    let config = PopulationConfig { crossover_rate: rate(0.0), ..Default::default() };
    let manager = PopulationManager::new(config);
    let parent1 = individual_with(1.0, vec![param("param1", "Number(10.0)")]);
    let parent2 = individual_with(2.0, vec![param("param2", "Number(20.0)")]);
    let result = manager.crossover(&parent1, &parent2);
    assert!(result.is_none());
}

#[test]
fn crossover_splits_each_parameter_between_children() {
    let manager = PopulationManager::new(PopulationConfig { crossover_rate: rate(1.0), ..Default::default() });
    let parent1 = individual_with(1.0, vec![param("a", "1"), param("b", "2")]);
    let parent2 = individual_with(2.0, vec![param("a", "3"), param("c", "4")]);
    for _ in 0..20 {
        let (c1, c2) = manager.crossover(&parent1, &parent2).unwrap();
        let a = (value_of(&c1, "a"), value_of(&c2, "a"));
        assert!(a == (Some("1".to_string()), Some("3".to_string())) || a == (Some("3".to_string()), Some("1".to_string())));
        let b = (value_of(&c1, "b"), value_of(&c2, "b"));
        assert!(b == (Some("2".to_string()), None) || b == (None, Some("2".to_string())));
        let c = (value_of(&c1, "c"), value_of(&c2, "c"));
        assert!(c == (Some("4".to_string()), None) || c == (None, Some("4".to_string())));
        assert_eq!(c1.len() + c2.len(), 4);
    }
}

#[test]
fn test_apply_elitism() {
    let config = PopulationConfig { elitism_count: 2, ..Default::default() };
    let manager = PopulationManager::new(config);
    let individuals = vec![
        individual_with(1.0, vec![param("param1", "Number(10.0)")]),
        individual_with(2.0, vec![param("param2", "Number(20.0)")]),
        individual_with(3.0, vec![param("param3", "Number(30.0)")]),
    ];
    let mut population = population(individuals, None);
    let elites = vec![individual_with(10.0, vec![]), individual_with(20.0, vec![])];
    manager.apply_elitism(&mut population, elites);
    assert_eq!(population.individuals.len(), 3);
    assert_eq!(population.individuals[0].strategy.fitness, Some(key(10.0)));
    assert_eq!(population.individuals[1].strategy.fitness, Some(key(20.0)));
}

#[test]
fn test_apply_elitism_empty_population() {
    let manager = PopulationManager::new(PopulationConfig::default());
    let mut population = population(vec![], None);
    let elites = vec![individual_with(10.0, vec![])];
    manager.apply_elitism(&mut population, elites);
    assert_eq!(population.individuals.len(), 0);
}

#[test]
fn apply_elitism_keeps_the_best_behind_the_elites() {
    let manager = PopulationManager::new(PopulationConfig::default());
    let mut p = population(vec![individual(1.0, None), individual(3.0, None), individual(2.0, None)], None);
    manager.apply_elitism(&mut p, vec![individual(9.0, None)]);
    assert_eq!(fitnesses(&p), vec![key(9.0), key(2.0), key(1.0)]);
}

#[test]
fn test_per_structure_optimizer_new() {
    let config = GeneticAlgorithmConfig { max_generations: 5, ..base_config() };
    let base_tf = TimeFrame::from_minutes(60);
    let _optimizer = PerStructureOptimizer::new(config, base_tf);
    assert!(true);
}

fn distinct(fitness: f64, value: &str) -> GeneticIndividual {
    individual_with(fitness, vec![param("p", value)])
}

#[test]
fn fresh_blood_plan_takes_the_weakest_when_duplicates_are_few() {
    let config = GeneticAlgorithmConfig { detect_duplicates: false, fresh_blood_rate: rate(0.5), ..base_config() };
    let system = FreshBloodSystem::new(config);
    let mut p = population(
        vec![distinct(4.0, "a"), distinct(1.0, "b"), distinct(3.0, "c"), distinct(2.0, "d")],
        Some(7),
    );
    p.generation = 5;
    let plan = system.plan_fresh_blood(&mut p);
    assert_eq!(plan, vec![0, 1]);
    assert_eq!(fitnesses(&p), vec![key(1.0), key(2.0), key(3.0), key(4.0)]);
    system.apply_fresh_blood(&mut p, &plan, vec![distinct(10.0, "x"), distinct(11.0, "y")]);
    assert_eq!(fitnesses(&p), vec![key(10.0), key(11.0), key(3.0), key(4.0)]);
    assert_eq!(p.individuals[0].island_id, Some(7));
    assert_eq!(p.individuals[1].generation, 5);
    assert_eq!(p.individuals[2].island_id, None);
}

#[test]
fn fresh_blood_plan_keeps_the_order_when_duplicates_suffice() {
    let config = GeneticAlgorithmConfig { detect_duplicates: true, fresh_blood_rate: rate(0.1), ..base_config() };
    let system = FreshBloodSystem::new(config);
    let mut p = population(vec![individual(1.0, None), individual(2.0, None)], None);
    let plan = system.plan_fresh_blood(&mut p);
    assert_eq!(plan, vec![1]);
    assert_eq!(fitnesses(&p), vec![key(1.0), key(2.0)]);
    system.apply_fresh_blood(&mut p, &plan, vec![]);
    assert_eq!(fitnesses(&p), vec![key(1.0), key(2.0)]);
    system.apply_fresh_blood(&mut p, &plan, vec![distinct(9.0, "z"), distinct(8.0, "w")]);
    assert_eq!(fitnesses(&p), vec![key(1.0), key(9.0)]);
    assert_eq!(p.individuals[1].island_id, None);
}
