use strategy_optimizer::diversity::select_with_diversity;
use strategy_optimizer::model::{
    ConditionInfo, ConditionOperator, EvaluatedStrategy, GeneticIndividual, IndicatorInfo, ParamEntry, StrategyCandidate,
};

fn plain(param_value: &str, fitness: i64) -> GeneticIndividual {
    GeneticIndividual {
        strategy: EvaluatedStrategy {
            candidate: None,
            parameters: vec![ParamEntry { name: "a".to_string(), value: param_value.to_string() }],
            fitness: Some(fitness),
        },
        generation: 0,
        island_id: None,
    }
}

fn structured(alias: &str, fitness: Option<i64>) -> GeneticIndividual {
    let indicator = IndicatorInfo {
        name: "SMA".to_string(),
        alias: alias.to_string(),
        indicator_type: "trend".to_string(),
        can_use_indicator_input: true,
        input_type: "price".to_string(),
    };
    let condition = ConditionInfo {
        id: format!("{}_above", alias),
        name: "above".to_string(),
        operator: ConditionOperator::Above,
        condition_type: "indicator_price".to_string(),
        constant_value: None,
        primary_indicator_alias: alias.to_string(),
        secondary_indicator_alias: None,
        primary_timeframe: None,
        secondary_timeframe: None,
        price_field: Some("Close".to_string()),
    };
    GeneticIndividual {
        strategy: EvaluatedStrategy {
            candidate: Some(StrategyCandidate {
                indicators: vec![indicator],
                nested_indicators: vec![],
                conditions: vec![condition],
                exit_conditions: vec![],
                stop_handlers: vec![],
                take_handlers: vec![],
                timeframes: vec![],
            }),
            parameters: vec![],
            fitness,
        },
        generation: 0,
        island_id: None,
    }
}

fn fitnesses(v: &[GeneticIndividual]) -> Vec<Option<i64>> {
    v.iter().map(|i| i.strategy.fitness).collect()
}

fn sample() -> Vec<GeneticIndividual> {
    vec![plain("1", 10), plain("2", 50), plain("1", 30), plain("2", 20), plain("1", 5)]
}

#[test]
fn diversity_picks_the_best_of_each_group_in_turns() {
    let selected = select_with_diversity(sample(), 4);
    assert_eq!(fitnesses(&selected), vec![Some(30), Some(50), Some(10), Some(20)]);
}

#[test]
fn diversity_takes_everyone_when_the_target_is_large() {
    let selected = select_with_diversity(sample(), 10);
    assert_eq!(fitnesses(&selected), vec![Some(30), Some(50), Some(10), Some(20), Some(5)]);
}

#[test]
fn diversity_with_zero_target_selects_nothing() {
    assert!(select_with_diversity(sample(), 0).is_empty());
    assert!(select_with_diversity(vec![], 3).is_empty());
}

#[test]
fn diversity_groups_candidates_by_structure() {
    let individuals = vec![
        structured("sma", Some(1)),
        structured("sma", Some(7)),
        structured("ema", None),
        structured("sma", Some(3)),
    ];
    let selected = select_with_diversity(individuals, 3);
    assert_eq!(fitnesses(&selected), vec![Some(7), None, Some(3)]);
    assert_eq!(selected[1].strategy.candidate.as_ref().unwrap().indicators[0].alias, "ema");
}
