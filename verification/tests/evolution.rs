use strategy_optimizer::evolution::EvolutionManager;
use strategy_optimizer::population::GeneticAlgorithmConfig;

fn config(restart_on_stagnation: bool) -> GeneticAlgorithmConfig {
    GeneticAlgorithmConfig {
        population_size: 100,
        max_generations: 50,
        elitism_count: 5,
        crossover_rate: 700_000,
        mutation_rate: 100_000,
        islands_count: 1,
        migration_interval: 10,
        migration_rate: 50_000,
        fresh_blood_rate: 100_000,
        detect_duplicates: true,
        restart_on_stagnation,
        candidate_builder_config: None,
    }
}

fn create_test_config() -> GeneticAlgorithmConfig {
    config(true)
}

/// The best fitness of a generation recorded, and a full window judged
/// stagnant when it improved by less than 1%.
fn update_fitness_history(manager: &mut EvolutionManager, best_fitness: f64) {
    if let Some((first, last)) = manager.record_best_fitness(best_fitness.to_bits()) {
        let first = f64::from_bits(first);
        let last = f64::from_bits(last);
        let improvement = (last - first).abs() / first.max(0.001);
        manager.count_stagnation(improvement < 0.01);
    }
}

#[test]
fn test_evolution_manager_new() {
    let config = create_test_config();
    let manager = EvolutionManager::new(config);
    assert_eq!(manager.stagnation_counter(), 0);
    assert!(manager.best_fitness_history().is_empty());
}

#[test]
fn test_should_restart_false() {
    let config = config(false);
    let manager = EvolutionManager::new(config);
    assert!(!manager.should_restart());
}

#[test]
fn test_should_restart_true() {
    let config = create_test_config();
    let mut manager = EvolutionManager::new(config);
    for _ in 0..20 {
        update_fitness_history(&mut manager, 1.0);
    }
    assert!(manager.stagnation_counter() >= manager.stagnation_threshold());
    assert!(manager.should_restart());
}

#[test]
fn test_update_fitness_history() {
    let config = create_test_config();
    let mut manager = EvolutionManager::new(config);
    update_fitness_history(&mut manager, 1.0);
    assert_eq!(manager.best_fitness_history().len(), 1);
    assert_eq!(f64::from_bits(manager.best_fitness_history()[0]), 1.0);
}

#[test]
fn test_update_fitness_history_stagnation() {
    let config = create_test_config();
    let mut manager = EvolutionManager::new(config);
    for _ in 0..10 {
        update_fitness_history(&mut manager, 1.0);
    }
    assert!(manager.stagnation_counter() > 0);
}

#[test]
fn test_update_fitness_history_improvement() {
    let config = create_test_config();
    let mut manager = EvolutionManager::new(config);
    update_fitness_history(&mut manager, 1.0);
    update_fitness_history(&mut manager, 2.0);
    assert_eq!(manager.stagnation_counter(), 0);
}

#[test]
fn test_reset_stagnation() {
    let config = create_test_config();
    let mut manager = EvolutionManager::new(config);
    for _ in 0..10 {
        update_fitness_history(&mut manager, 1.0);
    }
    manager.reset_stagnation();
    assert_eq!(manager.stagnation_counter(), 0);
    assert!(manager.best_fitness_history().is_empty());
}

#[test]
fn window_keeps_the_last_ten_and_improvement_resets_the_count() {
    let mut manager = EvolutionManager::new(create_test_config());
    for i in 0..12 {
        let r = manager.record_best_fitness(i);
        if i < 9 {
            assert_eq!(r, None);
        } else {
            assert_eq!(r, Some((i - 9, i)));
        }
    }
    assert_eq!(manager.best_fitness_history(), &[2, 3, 4, 5, 6, 7, 8, 9, 10, 11]);
    manager.count_stagnation(true);
    manager.count_stagnation(true);
    assert_eq!(manager.stagnation_counter(), 2);
    manager.count_stagnation(false);
    assert_eq!(manager.stagnation_counter(), 0);
    assert!(!manager.should_restart());
}
