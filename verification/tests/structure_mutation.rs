use strategy_optimizer::build_rules::{BuildRulesRegistry, CompareConfig, IndicatorBuildRules, NestingConfig, ThresholdType};
use strategy_optimizer::condition_builder::{create_condition_for_indicator, create_condition_for_indicator_with_draws, CreateDraws};
use strategy_optimizer::model::{ConditionInfo, ConditionKind, ConditionOperator, IndicatorInfo, StrategyCandidate, TimeFrame};
use strategy_optimizer::population::GeneticAlgorithmConfig;
use strategy_optimizer::structure_mutation::{
    apply_condition_step, apply_indicator_step, mutate_structure, mutate_structure_with_draws, ConditionChoice, StepDraws,
    StructureMutationDraws,
};

fn rules(threshold: ThresholdType) -> IndicatorBuildRules {
    IndicatorBuildRules {
        phase_1_allowed: true,
        threshold_type: threshold,
        nesting: NestingConfig { accepts_input: false, can_be_input: true },
        supports_percent_condition: true,
        can_compare_with_input_source: false,
        can_compare_with_nested_result: false,
        indicator_compare: CompareConfig { enabled: true },
        price_compare: CompareConfig { enabled: true },
        allowed_conditions: vec![],
    }
}

fn registry() -> BuildRulesRegistry {
    let mut r = BuildRulesRegistry::new(rules(ThresholdType::NoThreshold));
    r.insert("RSI".to_string(), rules(ThresholdType::Absolute));
    r
}

fn indicator(name: &str, alias: &str, kind: &str) -> IndicatorInfo {
    IndicatorInfo {
        name: name.to_string(),
        alias: alias.to_string(),
        indicator_type: kind.to_string(),
        can_use_indicator_input: false,
        input_type: "price".to_string(),
    }
}

fn condition(id: &str, alias: &str, op: ConditionOperator) -> ConditionInfo {
    ConditionInfo {
        id: id.to_string(),
        name: id.to_string(),
        operator: op,
        condition_type: "indicator_price".to_string(),
        constant_value: None,
        primary_indicator_alias: alias.to_string(),
        secondary_indicator_alias: None,
        primary_timeframe: None,
        secondary_timeframe: None,
        price_field: Some("Close".to_string()),
    }
}

fn candidate() -> StrategyCandidate {
    StrategyCandidate {
        indicators: vec![indicator("SMA", "sma", "trend"), indicator("EMA", "ema", "trend")],
        nested_indicators: vec![],
        conditions: vec![condition("entry_sma_1", "sma", ConditionOperator::Above), condition("entry_ema_2", "ema", ConditionOperator::Below)],
        exit_conditions: vec![],
        stop_handlers: vec![],
        take_handlers: vec![],
        timeframes: vec![TimeFrame::from_minutes(60)],
    }
}

fn create(number: u32) -> CreateDraws {
    CreateDraws { secondary_pick: 0, constant_pick: 5, period: 14, number, percent: false, percent_pick: 0 }
}

fn choice(op: ConditionOperator, kind: ConditionKind) -> ConditionChoice {
    ConditionChoice { op, kind, draws: create(9) }
}

fn quiet(choice: ConditionChoice) -> StepDraws {
    StepDraws { rate: false, first: false, second: false, pick: 0, new_pick: 0, choice }
}

fn config(rate: u32) -> GeneticAlgorithmConfig {
    GeneticAlgorithmConfig {
        population_size: 10,
        max_generations: 5,
        elitism_count: 1,
        crossover_rate: 700_000,
        mutation_rate: rate,
        islands_count: 1,
        migration_interval: 5,
        migration_rate: 100_000,
        fresh_blood_rate: 100_000,
        detect_duplicates: false,
        restart_on_stagnation: false,
        candidate_builder_config: None,
    }
}

#[test]
fn created_conditions_follow_the_choice() {
    let r = registry();
    let c = candidate();
    let rsi = indicator("RSI", "rsi", "oscillator");
    let x = create_condition_for_indicator_with_draws(&r, &rsi, &c, true, ConditionOperator::Above, ConditionKind::IndicatorConstant, &create(3))
        .unwrap();
    assert_eq!(x.id, "entry_rsi_3");
    assert_eq!(x.name, "RSI Above 70.5");
    assert_eq!(x.constant_value, Some(70_500));
    let atr = indicator("ATR", "atr", "volatility");
    let x = create_condition_for_indicator_with_draws(&r, &atr, &c, false, ConditionOperator::Below, ConditionKind::IndicatorConstant, &create(3))
        .unwrap();
    assert_eq!(x.id, "exit_atr_3");
    assert_eq!(x.name, "ATR Below Close * 0.25%");
    assert_eq!(x.constant_value, Some(250));
    let sma = indicator("SMA", "sma", "trend");
    let x = create_condition_for_indicator_with_draws(&r, &sma, &c, true, ConditionOperator::RisingTrend, ConditionKind::TrendCondition, &create(3))
        .unwrap();
    assert_eq!(x.id, "entry_sma_risingtrend_3");
    assert_eq!(x.name, "SMA RisingTrend (period: 14)");
    let x = create_condition_for_indicator_with_draws(
        &r,
        &sma,
        &c,
        true,
        ConditionOperator::Above,
        ConditionKind::IndicatorPrice,
        &CreateDraws { percent: true, percent_pick: 40, ..create(3) },
    )
    .unwrap();
    assert_eq!(x.name, "SMA Above target на 0.50%");
    assert_eq!(x.constant_value, Some(500));
    assert_eq!(x.price_field, Some("Close".to_string()));
    let x = create_condition_for_indicator_with_draws(&r, &sma, &c, true, ConditionOperator::Above, ConditionKind::IndicatorIndicator, &create(3))
        .unwrap();
    assert_eq!(x.id, "entry_sma_ema_3");
    assert_eq!(x.name, "SMA Above EMA");
    assert_eq!(x.condition_type, "indicator_indicator");
    assert_eq!(x.primary_indicator_alias, "sma");
    assert!(x.secondary_indicator_alias.is_none());
    let lonely = StrategyCandidate { indicators: vec![sma.clone()], ..candidate() };
    assert!(create_condition_for_indicator_with_draws(&r, &sma, &lonely, true, ConditionOperator::Above, ConditionKind::IndicatorIndicator, &create(3))
        .is_none());
}

#[test]
fn indicator_step_replaces_with_the_same_type() {
    let r = registry();
    let available = vec![indicator("RSI", "rsi", "oscillator"), indicator("WMA", "wma", "trend")];
    let mut c = candidate();
    let d = StepDraws { rate: true, first: true, second: false, pick: 0, new_pick: 0, choice: choice(ConditionOperator::Above, ConditionKind::IndicatorPrice) };
    apply_indicator_step(&r, &mut c, &available, &d);
    let aliases: Vec<&str> = c.indicators.iter().map(|i| i.alias.as_str()).collect();
    assert_eq!(aliases, vec!["ema", "wma"]);
    let ids: Vec<&str> = c.conditions.iter().map(|x| x.id.as_str()).collect();
    assert_eq!(ids, vec!["entry_ema_2", "entry_wma_9"]);
}

#[test]
fn condition_steps_remove_flip_or_add() {
    let r = registry();
    let available = vec![indicator("WMA", "wma", "trend")];
    let mut c = candidate();
    let remove = StepDraws { rate: true, first: true, second: false, pick: 1, new_pick: 0, choice: choice(ConditionOperator::Above, ConditionKind::IndicatorPrice) };
    apply_condition_step(&r, &mut c, &available, false, &remove);
    assert_eq!(c.conditions.len(), 1);
    assert_eq!(c.indicators.len(), 1);
    let mut c = candidate();
    let flip = StepDraws { rate: true, first: false, second: true, pick: 0, new_pick: 0, choice: choice(ConditionOperator::Above, ConditionKind::IndicatorPrice) };
    apply_condition_step(&r, &mut c, &available, false, &flip);
    assert_eq!(c.conditions[0].operator, ConditionOperator::Below);
    let mut c = candidate();
    let add = StepDraws { rate: true, first: false, second: false, pick: 0, new_pick: 1, choice: choice(ConditionOperator::RisingTrend, ConditionKind::TrendCondition) };
    apply_condition_step(&r, &mut c, &available, true, &add);
    assert_eq!(c.exit_conditions.len(), 1);
    assert_eq!(c.exit_conditions[0].id, "exit_ema_risingtrend_9");
}

#[test]
fn structure_mutation_follows_its_draws() {
    let r = registry();
    let available = vec![indicator("WMA", "wma", "trend")];
    let mut c = candidate();
    let none = choice(ConditionOperator::Above, ConditionKind::IndicatorPrice);
    let d = StructureMutationDraws {
        indicator: quiet(none),
        entry: quiet(choice(ConditionOperator::Above, ConditionKind::IndicatorPrice)),
        exit: quiet(choice(ConditionOperator::Above, ConditionKind::IndicatorPrice)),
        stop_rate: false,
        stop_remove: false,
        stop_pick: 0,
        stop_number: 0,
        nested_rate: false,
        nested_remove: false,
        nested_which: 0,
        nested_kind_pick: 0,
        nested_input_pick: 0,
        take_rate: false,
        take_remove: false,
        take_pick: 0,
        take_number: 0,
        timeframe_rate: true,
        timeframe_remove: false,
        timeframe_pick: 1,
    };
    mutate_structure_with_draws(&r, &mut c, &available, &[], TimeFrame::from_minutes(60), &d);
    assert_eq!(c.timeframes, vec![TimeFrame::from_minutes(60), TimeFrame::from_minutes(240)]);
    assert_eq!(c.conditions.len(), 2);
}

#[test]
fn no_mutation_at_a_zero_rate() {
    let r = registry();
    let available = vec![indicator("WMA", "wma", "trend")];
    let mut rng = rand::thread_rng();
    for _ in 0..10 {
        let mut c = candidate();
        mutate_structure(&r, &mut c, &config(0), &available, &[], TimeFrame::from_minutes(60), 10, 30, &mut rng);
        assert_eq!(c.indicators.len(), 2);
        assert_eq!(c.conditions.len(), 2);
        assert_eq!(c.timeframes, vec![TimeFrame::from_minutes(60)]);
    }
    for _ in 0..10 {
        let mut c = candidate();
        mutate_structure(&r, &mut c, &config(1_000_000), &available, &[], TimeFrame::from_minutes(60), 10, 30, &mut rng);
        for cond in &c.conditions {
            assert!(c.indicators.iter().any(|i| i.alias == cond.primary_indicator_alias));
        }
    }
}

#[test]
fn random_conditions_for_an_indicator_start_with_their_prefix() {
    let r = registry();
    let mut rng = rand::thread_rng();
    let c = candidate();
    for _ in 0..20 {
        if let Some(x) = create_condition_for_indicator(&r, &indicator("SMA", "sma", "trend"), &c, false, &config(100_000), 10, 30, &mut rng) {
            assert!(x.id.starts_with("exit_sma_"));
        }
    }
}
