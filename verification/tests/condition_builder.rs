use strategy_optimizer::build_rules::{BuildRulesRegistry, CompareConfig, IndicatorBuildRules, NestingConfig, ThresholdType};
use strategy_optimizer::condition_builder::{
    build_condition, build_condition_simple_with_timeframe, build_condition_simple_with_timeframe_with_draws,
    build_condition_with_draws, ConditionDraws, SimpleConditionDraws,
};
use strategy_optimizer::config::{CandidateBuilderConfig, ConditionProbabilities};
use strategy_optimizer::model::{ConditionOperator, IndicatorInfo, TimeFrame};

fn rules(threshold: ThresholdType) -> IndicatorBuildRules {
    IndicatorBuildRules {
        phase_1_allowed: true,
        threshold_type: threshold,
        nesting: NestingConfig { accepts_input: false, can_be_input: true },
        supports_percent_condition: true,
        can_compare_with_input_source: false,
        can_compare_with_nested_result: false,
        indicator_compare: CompareConfig { enabled: true },
        price_compare: CompareConfig { enabled: true },
        allowed_conditions: vec![],
    }
}

fn registry() -> BuildRulesRegistry {
    let mut r = BuildRulesRegistry::new(rules(ThresholdType::NoThreshold));
    r.insert("RSI".to_string(), rules(ThresholdType::Absolute));
    r.insert("ATR".to_string(), rules(ThresholdType::PercentOfPrice));
    r
}

fn indicator(name: &str, alias: &str) -> IndicatorInfo {
    IndicatorInfo {
        name: name.to_string(),
        alias: alias.to_string(),
        indicator_type: "trend".to_string(),
        can_use_indicator_input: false,
        input_type: "price".to_string(),
    }
}

fn draws(operator_pick: u32, constant_pick: u64) -> SimpleConditionDraws {
    SimpleConditionDraws { operator_pick, period: 14, number: 42, constant_pick, price_pick: 0, percent: false, percent_pick: 0 }
}

#[test]
fn absolute_thresholds_give_constant_conditions() {
    let c = build_condition_simple_with_timeframe_with_draws(
        &registry(),
        &indicator("RSI", "rsi"),
        true,
        None,
        &CandidateBuilderConfig::default(),
        &draws(0, 5),
    );
    assert_eq!(c.id, "entry_rsi_42");
    assert_eq!(c.name, "RSI Above 70.5");
    assert_eq!(c.operator, ConditionOperator::Above);
    assert_eq!(c.condition_type, "indicator_constant");
    assert_eq!(c.constant_value, Some(70_500));
    assert!(c.price_field.is_none());
    let c = build_condition_simple_with_timeframe_with_draws(
        &registry(),
        &indicator("RSI", "rsi"),
        false,
        None,
        &CandidateBuilderConfig::default(),
        &draws(1, 201),
    );
    assert_eq!(c.id, "exit_rsi_42");
    assert_eq!(c.name, "RSI Below 10.0");
    assert_eq!(c.constant_value, Some(10_000));
}

#[test]
fn trend_operators_on_a_timeframe_give_trend_conditions() {
    let tf = Some(TimeFrame::from_minutes(240));
    let c = build_condition_simple_with_timeframe_with_draws(
        &registry(),
        &indicator("SMA", "sma"),
        true,
        tf,
        &CandidateBuilderConfig::default(),
        &draws(2, 0),
    );
    assert_eq!(c.id, "entry_sma_risingtrend_42");
    assert_eq!(c.name, "SMA RisingTrend (period: 14)");
    assert_eq!(c.condition_type, "trend_condition");
    assert_eq!(c.constant_value, Some(14_000));
    assert_eq!(c.primary_timeframe, tf);
    let c = build_condition_simple_with_timeframe_with_draws(
        &registry(),
        &indicator("SMA", "sma"),
        true,
        tf,
        &CandidateBuilderConfig::default(),
        &draws(7, 0),
    );
    assert_eq!(c.operator, ConditionOperator::FallingTrend);
    assert_eq!(c.id, "entry_sma_fallingtrend_42");
}

#[test]
fn percent_of_price_thresholds_take_a_step_of_the_range() {
    let c = build_condition_simple_with_timeframe_with_draws(
        &registry(),
        &indicator("ATR", "atr"),
        true,
        None,
        &CandidateBuilderConfig::default(),
        &draws(1, 3),
    );
    assert_eq!(c.name, "ATR Below Close * 0.50%");
    assert_eq!(c.condition_type, "indicator_constant");
    assert_eq!(c.constant_value, Some(500));
}

#[test]
fn price_conditions_take_a_field_and_maybe_a_percentage() {
    let plain = build_condition_simple_with_timeframe_with_draws(
        &registry(),
        &indicator("SMA", "sma"),
        true,
        None,
        &CandidateBuilderConfig::default(),
        &draws(0, 0),
    );
    assert_eq!(plain.name, "SMA Above target");
    assert_eq!(plain.condition_type, "indicator_price");
    assert_eq!(plain.price_field, Some("Close".to_string()));
    assert!(plain.constant_value.is_none());
    let with_percent = build_condition_simple_with_timeframe_with_draws(
        &registry(),
        &indicator("SMA", "sma"),
        true,
        None,
        &CandidateBuilderConfig::default(),
        &SimpleConditionDraws { percent: true, percent_pick: 15, ..draws(0, 0) },
    );
    assert_eq!(with_percent.name, "SMA Above target на 0.25%");
    assert_eq!(with_percent.constant_value, Some(250));
}

#[test]
fn random_simple_conditions_stay_within_their_ranges() {
    let mut rng = rand::thread_rng();
    for _ in 0..50 {
        let c = build_condition_simple_with_timeframe(
            &registry(),
            &indicator("RSI", "rsi"),
            true,
            Some(TimeFrame::from_minutes(60)),
            &CandidateBuilderConfig::default(),
            10,
            30,
            &mut rng,
        )
        .unwrap();
        let v = c.constant_value.unwrap();
        if c.condition_type == "trend_condition" {
            assert!(v >= 10_000 && v <= 30_000);
        } else if c.operator == ConditionOperator::Above {
            assert!(v >= 70_000 && v <= 90_000);
        } else {
            assert!(v >= 10_000 && v <= 30_000);
        }
    }
}

fn weights(price: u32, pair: u32, trend: u32) -> ConditionProbabilities {
    ConditionProbabilities {
        add_entry_condition: 1_000_000,
        use_indicator_price_condition: price,
        use_indicator_indicator_condition: pair,
        use_crosses_operator: 0,
        use_trend_condition: trend,
        use_percent_condition: 0,
    }
}

fn condition_draws(operator_coin: bool) -> ConditionDraws {
    ConditionDraws {
        primary_pick: 0,
        kind_draw: 0,
        fallback_draw: 0,
        operator_pick: 0,
        operator_coin,
        secondary_pick: 0,
        constant_pick: 5,
        period: 14,
        number: 42,
        price_pick: 0,
        second_price_pick: 0,
        percent: false,
        percent_pick: 15,
    }
}

#[test]
fn built_conditions_follow_the_draws() {
    let config = CandidateBuilderConfig::default();
    let r = registry();
    let c = build_condition_with_draws(&r, &vec![indicator("RSI", "rsi")], &vec![], &weights(1, 1, 1), true, &config, &condition_draws(true))
        .unwrap();
    assert_eq!(c.id, "entry_rsi_42");
    assert_eq!(c.name, "RSI Above 70.5");
    assert_eq!(c.condition_type, "indicator_constant");
    assert_eq!(c.constant_value, Some(70_500));

    let c = build_condition_with_draws(&r, &vec![indicator("SMA", "sma")], &vec![], &weights(0, 0, 1), false, &config, &condition_draws(false))
        .unwrap();
    assert_eq!(c.id, "exit_sma::fallingtrend_42");
    assert_eq!(c.name, "SMA FallingTrend (period: 14)");
    assert_eq!(c.condition_type, "trend_condition");
    assert_eq!(c.operator, ConditionOperator::FallingTrend);
    assert_eq!(c.constant_value, Some(20_000));

    let c = build_condition_with_draws(
        &r,
        &vec![indicator("SMA", "sma")],
        &vec![],
        &weights(1, 0, 0),
        true,
        &config,
        &ConditionDraws { percent: true, ..condition_draws(true) },
    )
    .unwrap();
    assert_eq!(c.id, "entry_sma_42");
    assert_eq!(c.name, "SMA Above target на 0.25%");
    assert_eq!(c.condition_type, "indicator_price");
    assert_eq!(c.constant_value, Some(250));
    assert_eq!(c.price_field, Some("Close".to_string()));

    assert!(build_condition_with_draws(&r, &vec![], &vec![], &weights(1, 1, 1), true, &config, &condition_draws(true)).is_none());
}

#[test]
fn pair_conditions_read_their_aliases_back() {
    let config = CandidateBuilderConfig::default();
    let r = registry();
    let indicators = vec![indicator("SMA", "sma"), indicator("EMA", "ema")];
    let c = build_condition_with_draws(&r, &indicators, &vec![], &weights(0, 1, 0), true, &config, &condition_draws(true)).unwrap();
    assert_eq!(c.condition_type, "indicator_indicator");
    assert_eq!(c.id, "entry_sma::ema_42");
    assert_eq!(c.name, "SMA Above EMA");
    assert_eq!(c.primary_indicator_alias, "sma");
    assert_eq!(c.secondary_indicator_alias, Some("ema".to_string()));
    assert!(c.price_field.is_none());
}

#[test]
fn random_conditions_are_built_on_the_candidates_indicators() {
    let config = CandidateBuilderConfig::default();
    let r = registry();
    let indicators = vec![indicator("SMA", "sma"), indicator("RSI", "rsi")];
    let mut rng = rand::thread_rng();
    for _ in 0..30 {
        let c = build_condition(&r, &indicators, &vec![], &weights(1, 1, 1), true, &config, 10, 30, &mut rng).unwrap();
        assert!(c.primary_indicator_alias == "sma" || c.primary_indicator_alias == "rsi");
        assert!(c.id.starts_with("entry_"));
    }
    assert!(build_condition(&r, &vec![], &vec![], &weights(1, 1, 1), true, &config, 10, 30, &mut rng).is_none());
}
