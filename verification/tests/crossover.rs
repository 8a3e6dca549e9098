use strategy_optimizer::crossover::{
    cross_structures_with_coins, crossover_conditions_hybrid, crossover_structure_hybrid, unique_conditions, CrossoverWeights,
};
use strategy_optimizer::model::{ConditionInfo, ConditionOperator, IndicatorInfo, StopHandlerInfo, StrategyCandidate, TimeFrame};
use strategy_optimizer::population::GeneticAlgorithmConfig;

fn condition(id: &str, alias: &str, field: &str) -> ConditionInfo {
    ConditionInfo {
        id: id.to_string(),
        name: id.to_string(),
        operator: ConditionOperator::Above,
        condition_type: "indicator_price".to_string(),
        constant_value: None,
        primary_indicator_alias: alias.to_string(),
        secondary_indicator_alias: None,
        primary_timeframe: None,
        secondary_timeframe: None,
        price_field: Some(field.to_string()),
    }
}

fn indicator(alias: &str) -> IndicatorInfo {
    IndicatorInfo {
        name: alias.to_uppercase(),
        alias: alias.to_string(),
        indicator_type: "trend".to_string(),
        can_use_indicator_input: true,
        input_type: "price".to_string(),
    }
}

fn candidate(aliases: &[&str], ids: &[&str]) -> StrategyCandidate {
    StrategyCandidate {
        indicators: aliases.iter().map(|a| indicator(a)).collect(),
        nested_indicators: vec![],
        conditions: ids.iter().zip(aliases.iter()).map(|(id, a)| condition(id, a, "Close")).collect(),
        exit_conditions: vec![],
        stop_handlers: vec![],
        take_handlers: vec![],
        timeframes: vec![],
    }
}

fn config(rate: u32) -> GeneticAlgorithmConfig {
    GeneticAlgorithmConfig {
        population_size: 10,
        max_generations: 5,
        elitism_count: 1,
        crossover_rate: rate,
        mutation_rate: 100_000,
        islands_count: 1,
        migration_interval: 5,
        migration_rate: 100_000,
        fresh_blood_rate: 100_000,
        detect_duplicates: false,
        restart_on_stagnation: false,
        candidate_builder_config: None,
    }
}

#[test]
fn unique_conditions_keep_the_first_of_each_id() {
    let a = vec![condition("x", "sma", "Close"), condition("y", "ema", "Close")];
    let b = vec![condition("y", "wma", "Open"), condition("z", "rsi", "Close")];
    let u = unique_conditions(&a, 700_000, &b, 300_000);
    let ids: Vec<(String, u32)> = u.iter().map(|(c, w)| (c.id.clone(), *w)).collect();
    assert_eq!(ids, vec![("x".to_string(), 700_000), ("y".to_string(), 700_000), ("z".to_string(), 300_000)]);
    assert_eq!(u[1].0.primary_indicator_alias, "ema");
}

#[test]
fn condition_crossover_children_take_parent_conditions_once() {
    let p1 = candidate(&["a", "b"], &["c1", "c2"]);
    let p2 = candidate(&["c", "d"], &["c3", "c4"]);
    for weighted in [false, true] {
        for _ in 0..20 {
            let (x, y) = crossover_conditions_hybrid(&p1.conditions, &p2.conditions, &p1, &p2, 3, 1, 600_000, 400_000, weighted);
            for child in [&x, &y] {
                assert!(child.len() >= 1 && child.len() <= 3);
                let mut ids: Vec<&str> = child.iter().map(|c| c.id.as_str()).collect();
                ids.sort();
                ids.dedup();
                assert_eq!(ids.len(), child.len());
                assert!(child.iter().all(|c| ["c1", "c2", "c3", "c4"].contains(&c.id.as_str())));
            }
        }
    }
}

#[test]
fn full_weight_deals_everything_to_the_first_child() {
    let p1 = candidate(&["a", "b"], &["c1", "c2"]);
    let p2 = candidate(&["c"], &["c3"]);
    let (x, y) = crossover_conditions_hybrid(&p1.conditions, &p2.conditions, &p1, &p2, 5, 0, 1_000_000, 1_000_000, true);
    assert_eq!(x.len(), 3);
    assert!(y.is_empty());
}

#[test]
fn conflicting_conditions_are_not_dealt_together() {
    let c = vec![condition("c1", "a", "Close"), condition("c2", "a", "Close")];
    let p = candidate(&["a"], &["c1"]);
    for _ in 0..10 {
        let (x, y) = crossover_conditions_hybrid(&c, &[], &p, &p, 5, 0, 500_000, 500_000, false);
        assert!(x.len() <= 1 && y.len() <= 1);
        assert_eq!(x.len() + y.len(), 2);
    }
}

#[test]
fn structure_crossover_without_rate_copies_the_parents() {
    let p1 = candidate(&["a"], &["c1"]);
    let p2 = candidate(&["b"], &["c2"]);
    let weights = CrossoverWeights { weight1: 500_000, weight2: 500_000, weighted: false };
    let (x, y) = crossover_structure_hybrid(&p1, &p2, &weights, &config(0));
    assert_eq!(x.conditions[0].id, "c1");
    assert_eq!(y.conditions[0].id, "c2");
    assert_eq!(x.indicators.len(), 1);
}

#[test]
fn structure_crossover_keeps_children_consistent() {
    let p1 = candidate(&["a", "b"], &["c1", "c2"]);
    let p2 = candidate(&["c", "d"], &["c3", "c4"]);
    let weights = CrossoverWeights { weight1: 500_000, weight2: 500_000, weighted: false };
    for _ in 0..20 {
        let (x, y) = crossover_structure_hybrid(&p1, &p2, &weights, &config(1_000_000));
        for child in [&x, &y] {
            assert!(!child.conditions.is_empty());
            assert!(child.indicators.len() + child.nested_indicators.len() <= 4);
            for cond in &child.conditions {
                assert!(child.indicators.iter().any(|i| i.alias == cond.primary_indicator_alias));
            }
        }
    }
}

fn stop(name: &str) -> StopHandlerInfo {
    StopHandlerInfo {
        id: name.to_string(),
        name: name.to_string(),
        handler_name: name.to_string(),
        stop_type: "stop_loss".to_string(),
        optimization_params: vec![],
        priority: 1,
    }
}

#[test]
fn coins_without_crossing_give_back_the_parents() {
    let mut p1 = candidate(&["a"], &["c1"]);
    p1.stop_handlers = vec![stop("StopLossPct")];
    let p2 = candidate(&["b"], &["c2"]);
    let weights = CrossoverWeights { weight1: 500_000, weight2: 500_000, weighted: false };
    let (x, y) = cross_structures_with_coins(&p1, &p2, &weights, &config(1_000_000), false, true, true, true, true, true);
    assert_eq!(x.conditions[0].id, "c1");
    assert_eq!(x.stop_handlers.len(), 1);
    assert_eq!(y.conditions[0].id, "c2");
    assert!(y.stop_handlers.is_empty());
}

#[test]
fn coins_swap_handlers_and_timeframes_only_as_they_say() {
    let mut p1 = candidate(&["a"], &["c1"]);
    p1.stop_handlers = vec![stop("StopLossPct")];
    p1.timeframes = vec![TimeFrame { minutes: 60 }];
    p1.conditions[0].primary_timeframe = Some(TimeFrame { minutes: 60 });
    let mut p2 = candidate(&["b"], &["c2"]);
    p2.timeframes = vec![TimeFrame { minutes: 240 }];
    p2.conditions[0].primary_timeframe = Some(TimeFrame { minutes: 240 });
    let weights = CrossoverWeights { weight1: 500_000, weight2: 500_000, weighted: false };
    let (x, y) = cross_structures_with_coins(&p1, &p2, &weights, &config(1_000_000), true, false, false, true, false, false);
    assert_eq!(x.conditions[0].id, "c1");
    assert_eq!(y.conditions[0].id, "c2");
    assert!(x.stop_handlers.is_empty());
    assert_eq!(y.stop_handlers[0].handler_name, "StopLossPct");
    assert_eq!(x.timeframes, vec![TimeFrame { minutes: 60 }]);
    let (x, y) = cross_structures_with_coins(&p1, &p2, &weights, &config(1_000_000), true, false, false, false, false, true);
    assert_eq!(x.timeframes, vec![TimeFrame { minutes: 240 }]);
    assert_eq!(y.timeframes, vec![TimeFrame { minutes: 60 }]);
    assert_eq!(x.stop_handlers.len(), 1);
}
