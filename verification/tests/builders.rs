use strategy_optimizer::build_rules::{BuildRulesRegistry, CompareConfig, IndicatorBuildRules, NestingConfig, ThresholdType};
use strategy_optimizer::builders::{
    choose_condition_shape, try_add_nested_indicator, try_add_nested_indicator_with_draws, IndicatorBuilder, TimeframeBuilder,
};
use strategy_optimizer::config::{
    CandidateBuilderConfig, ConditionProbabilities, ElementConstraints, ElementProbabilities, NestedIndicatorProbabilities, TimeframeProbabilities,
};
use strategy_optimizer::model::{ConditionKind, ConditionOperator, IndicatorInfo, NestedIndicator, StopHandlerConfig, TimeFrame};
use strategy_optimizer::rules::CandidateElements;
use strategy_optimizer::selection::StopHandlerBuilder;

fn indicator(name: &str, alias: &str, kind: &str) -> IndicatorInfo {
    IndicatorInfo {
        name: name.to_string(),
        alias: alias.to_string(),
        indicator_type: kind.to_string(),
        can_use_indicator_input: false,
        input_type: "price".to_string(),
    }
}

fn rules(accepts_input: bool) -> IndicatorBuildRules {
    IndicatorBuildRules {
        phase_1_allowed: true,
        threshold_type: ThresholdType::NoThreshold,
        nesting: NestingConfig { accepts_input, can_be_input: true },
        supports_percent_condition: false,
        can_compare_with_input_source: false,
        can_compare_with_nested_result: false,
        indicator_compare: CompareConfig { enabled: true },
        price_compare: CompareConfig { enabled: true },
        allowed_conditions: vec![],
    }
}

fn config(add_nested: u32, depth: usize) -> CandidateBuilderConfig {
    let defaults = CandidateBuilderConfig::default();
    CandidateBuilderConfig {
        probabilities: ElementProbabilities {
            nested_indicators: NestedIndicatorProbabilities { add_nested_indicator: add_nested, max_nesting_depth: depth },
            ..defaults.probabilities
        },
        ..defaults
    }
}

fn elements(indicators: Vec<IndicatorInfo>, nested: Vec<NestedIndicator>) -> CandidateElements {
    CandidateElements {
        indicators,
        nested_indicators: nested,
        entry_conditions: vec![],
        exit_conditions: vec![],
        stop_handlers: vec![],
        take_handlers: vec![],
        timeframes: vec![],
    }
}

#[test]
fn nesting_wraps_an_accepting_indicator_around_the_candidates_one() {
    let mut registry = BuildRulesRegistry::new(rules(false));
    registry.insert("EMA".to_string(), rules(true));
    let mut c = elements(vec![indicator("SMA", "sma", "trend")], vec![]);
    let available = vec![indicator("EMA", "ema", "trend"), indicator("RSI", "rsi", "oscillator")];
    try_add_nested_indicator(&mut c, &available, &registry, &config(1_000_000, 2), &mut rand::thread_rng());
    assert_eq!(c.nested_indicators.len(), 1);
    let n = &c.nested_indicators[0];
    assert_eq!(n.indicator.alias, "ema_on_sma");
    assert_eq!(n.indicator.name, "EMA");
    assert_eq!(n.indicator.input_type, "indicator");
    assert!(n.indicator.can_use_indicator_input);
    assert_eq!(n.input_indicator_alias, "sma");
    assert_eq!(n.depth, 1);
    assert_eq!(c.indicators.len(), 1);
}

#[test]
fn nesting_stops_at_the_maximum_depth_and_without_probability() {
    let mut registry = BuildRulesRegistry::new(rules(false));
    registry.insert("EMA".to_string(), rules(true));
    let available = vec![indicator("EMA", "ema", "trend")];
    let deep = NestedIndicator { indicator: indicator("EMA", "ema_on_sma", "trend"), input_indicator_alias: "sma".to_string(), depth: 1 };
    let mut c = elements(vec![indicator("SMA", "sma", "trend")], vec![deep]);
    try_add_nested_indicator(&mut c, &available, &registry, &config(1_000_000, 1), &mut rand::thread_rng());
    assert_eq!(c.nested_indicators.len(), 1);
    let mut c = elements(vec![indicator("SMA", "sma", "trend")], vec![]);
    try_add_nested_indicator(&mut c, &available, &registry, &config(0, 2), &mut rand::thread_rng());
    assert!(c.nested_indicators.is_empty());
}

#[test]
fn indicator_builder_nests_trend_indicators_only() {
    let cfg = config(1_000_000, 2);
    let indicators = vec![indicator("RSI", "rsi", "oscillator")];
    let mut nested = vec![];
    let added = IndicatorBuilder::try_add_nested_indicator(
        &cfg,
        &mut rand::thread_rng(),
        &indicators,
        &mut nested,
        &[indicator("CCI", "cci", "oscillator"), indicator("WMA", "wma", "trend")],
    );
    assert!(added);
    assert_eq!(nested[0].indicator.alias, "wma_on_rsi");
    assert_eq!(nested[0].depth, 1);
    let mut none = vec![];
    assert!(!IndicatorBuilder::try_add_nested_indicator(
        &cfg,
        &mut rand::thread_rng(),
        &indicators,
        &mut none,
        &[indicator("CCI", "cci", "oscillator")],
    ));
    assert!(none.is_empty());
}

fn constraints(max_timeframes: usize) -> ElementConstraints {
    ElementConstraints { max_timeframes, ..CandidateBuilderConfig::default().constraints }
}

#[test]
fn higher_timeframes_are_added_above_the_base() {
    let available = vec![TimeFrame::from_minutes(60), TimeFrame::from_minutes(240)];
    let probs = TimeframeProbabilities { use_base_timeframe: 1_000_000, use_higher_timeframe: 1_000_000, use_multiple_timeframes: 0 };
    let mut tfs = vec![TimeFrame::from_minutes(60)];
    TimeframeBuilder::add_higher_timeframes_with_probability(&mut rand::thread_rng(), &mut tfs, &available, &constraints(3), &probs);
    assert_eq!(tfs, vec![TimeFrame::from_minutes(60), TimeFrame::from_minutes(240)]);

    let mut full = vec![TimeFrame::from_minutes(60)];
    TimeframeBuilder::add_higher_timeframes_with_probability(&mut rand::thread_rng(), &mut full, &available, &constraints(1), &probs);
    assert_eq!(full.len(), 1);

    let mut alone = vec![TimeFrame::from_minutes(60)];
    TimeframeBuilder::add_higher_timeframes_with_probability(
        &mut rand::thread_rng(),
        &mut alone,
        &available[..1],
        &constraints(3),
        &probs,
    );
    assert_eq!(alone.len(), 1);
}

#[test]
fn several_timeframes_fill_up_to_the_maximum() {
    let available = vec![TimeFrame::from_minutes(5), TimeFrame::from_minutes(15), TimeFrame::from_minutes(60)];
    let probs = TimeframeProbabilities { use_base_timeframe: 1_000_000, use_higher_timeframe: 1_000_000, use_multiple_timeframes: 1_000_000 };
    let mut tfs = vec![TimeFrame::from_minutes(5)];
    TimeframeBuilder::add_higher_timeframes_with_probability(&mut rand::thread_rng(), &mut tfs, &available, &constraints(3), &probs);
    assert_eq!(tfs.len(), 3);
    let mut sorted: Vec<u32> = tfs.iter().map(|t| t.minutes).collect();
    sorted.sort();
    assert_eq!(sorted, vec![5, 15, 60]);
}

#[test]
fn take_handlers_come_from_take_profit_entries() {
    let configs = vec![
        StopHandlerConfig {
            handler_name: "StopLossPct".to_string(),
            stop_type: "stop_loss".to_string(),
            parameter_name: "percentage".to_string(),
            global_param_name: None,
            priority: 1,
        },
        StopHandlerConfig {
            handler_name: "TakeProfitPct".to_string(),
            stop_type: "take_profit".to_string(),
            parameter_name: "percentage".to_string(),
            global_param_name: Some("tp".to_string()),
            priority: 2,
        },
    ];
    let h = StopHandlerBuilder::select_take_handler(&mut rand::thread_rng(), &configs).unwrap();
    assert!(h.id.starts_with("take_"));
    assert_eq!(h.handler_name, "TakeProfitPct");
    assert_eq!(h.name, "TakeProfitPct");
    assert_eq!(h.stop_type, "take_profit");
    assert_eq!(h.priority, 2);
    assert_eq!(h.optimization_params.len(), 1);
    assert_eq!(h.optimization_params[0].name, "percentage");
    assert!(StopHandlerBuilder::select_take_handler(&mut rand::thread_rng(), &configs[..1]).is_none());
    let cfg = CandidateBuilderConfig::default();
    let stop = StopHandlerBuilder::select_stop_handler(&cfg, &mut rand::thread_rng(), &configs, &[]).unwrap();
    assert!(stop.id.starts_with("stop_"));
    assert_eq!(stop.handler_name, "StopLossPct");
}

fn threshold_rules(threshold: ThresholdType, ops: Vec<ConditionOperator>) -> IndicatorBuildRules {
    IndicatorBuildRules { threshold_type: threshold, allowed_conditions: ops, ..rules(false) }
}

#[test]
fn shapes_of_constant_conditions() {
    let mut registry = BuildRulesRegistry::new(rules(false));
    registry.insert("RSI".to_string(), threshold_rules(ThresholdType::Absolute, vec![ConditionOperator::Above, ConditionOperator::RisingTrend]));
    registry.insert("ATR".to_string(), threshold_rules(ThresholdType::PercentOfPrice, vec![ConditionOperator::GreaterPercent]));
    let probs = ConditionProbabilities::default();
    for _ in 0..20 {
        let (primary, kind, op) =
            choose_condition_shape(&vec![indicator("RSI", "rsi", "oscillator")], &vec![], &probs, &registry, &mut rand::thread_rng()).unwrap();
        assert_eq!(primary.alias, "rsi");
        assert_eq!(kind, ConditionKind::IndicatorConstant);
        assert_eq!(op, ConditionOperator::Above);
        let (_, kind, op) =
            choose_condition_shape(&vec![indicator("ATR", "atr", "volatility")], &vec![], &probs, &registry, &mut rand::thread_rng()).unwrap();
        assert_eq!(kind, ConditionKind::IndicatorConstant);
        assert_eq!(op, ConditionOperator::GreaterPercent);
    }
    assert!(choose_condition_shape(&vec![], &vec![], &probs, &registry, &mut rand::thread_rng()).is_none());
}

#[test]
fn indicator_pairs_give_way_to_trends_without_a_comparable_indicator() {
    let registry = BuildRulesRegistry::new(rules(false));
    let probs = ConditionProbabilities {
        use_indicator_price_condition: 0,
        use_indicator_indicator_condition: 1_000_000,
        use_trend_condition: 200_000,
        ..ConditionProbabilities::default()
    };
    for _ in 0..20 {
        let (_, kind, op) =
            choose_condition_shape(&vec![indicator("SMA", "sma", "trend")], &vec![], &probs, &registry, &mut rand::thread_rng()).unwrap();
        assert_eq!(kind, ConditionKind::TrendCondition);
        assert!(op == ConditionOperator::RisingTrend || op == ConditionOperator::FallingTrend);
    }
    for _ in 0..20 {
        let (_, kind, op) = choose_condition_shape(
            &vec![indicator("SMA", "sma", "trend"), indicator("EMA", "ema", "trend")],
            &vec![],
            &probs,
            &registry,
            &mut rand::thread_rng(),
        )
        .unwrap();
        assert!(kind == ConditionKind::IndicatorIndicator || kind == ConditionKind::TrendCondition);
        if kind == ConditionKind::IndicatorIndicator {
            assert!(op == ConditionOperator::Above || op == ConditionOperator::Below);
        }
    }
}

#[test]
fn nesting_draws_pick_the_input_and_the_wrapper() {
    let mut registry = BuildRulesRegistry::new(rules(false));
    registry.insert("EMA".to_string(), rules(true));
    registry.insert("WMA".to_string(), rules(true));
    let available = vec![indicator("EMA", "ema", "trend"), indicator("RSI", "rsi", "oscillator"), indicator("WMA", "wma", "trend")];
    let start = || elements(vec![indicator("SMA", "sma", "trend"), indicator("KAMA", "kama", "trend")], vec![]);
    let mut c = start();
    try_add_nested_indicator_with_draws(&mut c, &available, &registry, &config(0, 2), true, 3, 1);
    assert_eq!(c.nested_indicators.len(), 1);
    assert_eq!(c.nested_indicators[0].indicator.alias, "wma_on_kama");
    assert_eq!(c.nested_indicators[0].input_indicator_alias, "kama");
    let mut c = start();
    try_add_nested_indicator_with_draws(&mut c, &available, &registry, &config(1_000_000, 2), false, 0, 0);
    assert!(c.nested_indicators.is_empty());
    let mut nested = vec![];
    let done = IndicatorBuilder::try_add_nested_indicator_with_draws(
        &config(0, 2),
        &start().indicators,
        &mut nested,
        &available,
        true,
        0,
        1,
    );
    assert!(done);
    assert_eq!(nested[0].indicator.alias, "wma_on_sma");
}

#[test]
fn timeframe_draws_pick_among_the_missing() {
    let available = vec![TimeFrame::from_minutes(5), TimeFrame::from_minutes(15), TimeFrame::from_minutes(60), TimeFrame::from_minutes(240)];
    let mut tfs = vec![TimeFrame::from_minutes(5)];
    TimeframeBuilder::add_higher_timeframes_with_draws(&mut tfs, &available, &constraints(4), true, true, 2, 1);
    assert_eq!(tfs, vec![TimeFrame::from_minutes(5), TimeFrame::from_minutes(240), TimeFrame::from_minutes(60)]);
    let mut tfs = vec![TimeFrame::from_minutes(5)];
    TimeframeBuilder::add_higher_timeframes_with_draws(&mut tfs, &available, &constraints(4), false, true, 0, 0);
    assert_eq!(tfs, vec![TimeFrame::from_minutes(5)]);
    let mut tfs = vec![TimeFrame::from_minutes(5)];
    TimeframeBuilder::add_higher_timeframes_with_draws(&mut tfs, &available, &constraints(2), true, true, 0, 0);
    assert_eq!(tfs, vec![TimeFrame::from_minutes(5), TimeFrame::from_minutes(15)]);
}
