use strategy_optimizer::model::{
    ConditionInfo, ConditionOperator, IndicatorInfo, NestedIndicator, ParamEntry, StrategyCandidate, TimeFrame,
};
use strategy_optimizer::signature::{create_signature, CacheKey};
use strategy_optimizer::genetic::get_strategy_signature;
use strategy_optimizer::model::EvaluatedStrategy;

fn empty_candidate() -> StrategyCandidate {
    StrategyCandidate {
        indicators: vec![],
        nested_indicators: vec![],
        conditions: vec![],
        exit_conditions: vec![],
        stop_handlers: vec![],
        take_handlers: vec![],
        timeframes: vec![],
    }
}

fn parameters() -> Vec<ParamEntry> {
    vec![
        ParamEntry { name: "param1".to_string(), value: "Number(10.0)".to_string() },
        ParamEntry { name: "param2".to_string(), value: "Number(20.0)".to_string() },
    ]
}

#[test]
fn test_cache_key_candidate_signature() {
    let candidate = empty_candidate();
    let sig = CacheKey::candidate_signature(&candidate);
    assert!(sig.contains("indicators:0"));
    assert!(sig.contains("conditions:0"));
    assert!(sig.contains("timeframes:0"));
}

#[test]
fn test_cache_key_parameters_signature() {
    let params = parameters();
    let sig = CacheKey::parameters_signature(&params);
    assert!(sig.contains("param1"));
    assert!(sig.contains("param2"));
}

#[test]
fn test_cache_key_from_candidate_and_params() {
    let candidate = empty_candidate();
    let params = parameters();
    let key = CacheKey::from_candidate_and_params(&candidate, &params);
    assert!(!key.candidate_signature.is_empty());
    assert!(!key.parameters_signature.is_empty());
}

#[test]
fn test_cache_key_equality() {
    let candidate = empty_candidate();
    let params = parameters();
    let key1 = CacheKey::from_candidate_and_params(&candidate, &params);
    let key2 = CacheKey::from_candidate_and_params(&candidate, &params);
    assert_eq!(key1, key2);
}

#[test]
fn candidate_signature_is_exact() {
    assert_eq!(
        CacheKey::candidate_signature(&empty_candidate()),
        "conditions:0|indicators:0|nested:0|timeframes:0"
    );
}

#[test]
fn parameters_are_sorted_by_name() {
    let params = vec![
        ParamEntry { name: "b".to_string(), value: "2".to_string() },
        ParamEntry { name: "a".to_string(), value: "1".to_string() },
        ParamEntry { name: "ab".to_string(), value: "3".to_string() },
    ];
    assert_eq!(CacheKey::parameters_signature(&params), "a:1|ab:3|b:2");
    assert_eq!(CacheKey::parameters_signature(&vec![]), "");
}

fn indicator(name: &str, alias: &str) -> IndicatorInfo {
    IndicatorInfo {
        name: name.to_string(),
        alias: alias.to_string(),
        indicator_type: "trend".to_string(),
        can_use_indicator_input: true,
        input_type: "price".to_string(),
    }
}

#[test]
fn strategy_signature_sorts_parts() {
    let mut candidate = empty_candidate();
    candidate.indicators = vec![indicator("SMA", "sma"), indicator("EMA", "ema")];
    let strategy = EvaluatedStrategy {
        candidate: Some(candidate),
        parameters: vec![ParamEntry { name: "p".to_string(), value: "Number(1.0)".to_string() }],
        fitness: None,
    };
    assert_eq!(create_signature(&strategy), "conditions:0|indicators:2|nested:0|p:Number(1.0)");
}

#[test]
fn structural_signature_lists_sets() {
    let mut candidate = empty_candidate();
    candidate.indicators = vec![indicator("SMA", "sma"), indicator("EMA", "ema"), indicator("SMA", "sma")];
    candidate.nested_indicators = vec![NestedIndicator {
        indicator: indicator("RSI", "rsi_on_sma"),
        input_indicator_alias: "sma".to_string(),
        depth: 1,
    }];
    candidate.conditions = vec![ConditionInfo {
        id: "entry_sma_1".to_string(),
        name: "SMA Above target".to_string(),
        operator: ConditionOperator::Above,
        condition_type: "indicator_price".to_string(),
        constant_value: None,
        primary_indicator_alias: "sma".to_string(),
        secondary_indicator_alias: None,
        primary_timeframe: None,
        secondary_timeframe: None,
        price_field: Some("Close".to_string()),
    }];
    candidate.timeframes = vec![TimeFrame::from_minutes(60)];
    assert_eq!(
        get_strategy_signature(&candidate),
        "indicators:{\"ema\", \"sma\"}|nested:{\"sma->rsi_on_sma\"}|conditions:{\"indicator_price:entry_sma_1:Above\"}|exit:{}|stops:{}|takes:{}|timeframes:{\"60\"}"
    );
}

#[test]
fn equal_structures_share_a_signature() {
    let sma_condition = ConditionInfo {
        id: "entry_sma_1".to_string(),
        name: "SMA Above target".to_string(),
        operator: ConditionOperator::Above,
        condition_type: "indicator_price".to_string(),
        constant_value: None,
        primary_indicator_alias: "sma".to_string(),
        secondary_indicator_alias: None,
        primary_timeframe: None,
        secondary_timeframe: None,
        price_field: Some("Close".to_string()),
    };
    let mut a = empty_candidate();
    a.indicators = vec![indicator("SMA", "sma"), indicator("EMA", "ema")];
    a.conditions = vec![sma_condition.clone()];
    a.timeframes = vec![TimeFrame::from_minutes(60), TimeFrame::from_minutes(240)];
    let mut b = empty_candidate();
    b.indicators = vec![indicator("EMA", "ema"), indicator("WMA", "sma"), indicator("EMA", "ema")];
    b.conditions = vec![ConditionInfo { name: "another name".to_string(), ..sma_condition.clone() }, sma_condition];
    b.timeframes = vec![TimeFrame::from_minutes(240), TimeFrame::from_minutes(60)];
    assert_eq!(get_strategy_signature(&a), get_strategy_signature(&b));
    b.timeframes.pop();
    assert_ne!(get_strategy_signature(&a), get_strategy_signature(&b));
}

#[test]
fn test_available_timeframes() {
    let base_tf = strategy_optimizer::model::TimeFrame::from_minutes(60);
    let higher_tfs = vec![
        strategy_optimizer::model::TimeFrame::from_minutes(1440),
        strategy_optimizer::model::TimeFrame::from_minutes(240),
    ];
    let available = strategy_optimizer::signature::available_timeframes(&base_tf, &higher_tfs);
    assert_eq!(available.len(), 3);
    assert_eq!(available[0].identifier(), "60");
    let minutes: Vec<u32> = available.iter().map(|t| t.minutes).collect();
    assert_eq!(minutes, vec![60, 240, 1440]);
}

#[test]
fn parameters_signature_ignores_the_order_of_parameters() {
    let a = ParamEntry { name: "alpha".to_string(), value: "Number(1.0)".to_string() };
    let b = ParamEntry { name: "beta".to_string(), value: "Number(2.0)".to_string() };
    let c = ParamEntry { name: "gamma".to_string(), value: "Number(3.0)".to_string() };
    let one = CacheKey::parameters_signature(&vec![a.clone(), b.clone(), c.clone()]);
    let other = CacheKey::parameters_signature(&vec![c, a, b]);
    assert_eq!(one, other);
    assert_eq!(one, "alpha:Number(1.0)|beta:Number(2.0)|gamma:Number(3.0)");
}
