use strategy_optimizer::config::CandidateBuilderConfig;
use strategy_optimizer::initial::{
    extract_all_indicator_aliases_from_condition, extract_indicator_alias_from_condition_id,
    extract_indicator_name_by_condition_id, get_volatility_percentage_range, should_apply_volatility_constraint,
    PercentRange,
};
use strategy_optimizer::model::{ConditionInfo, ConditionOperator, IndicatorInfo, StrategyCandidate};

fn aliases(id: &str) -> Vec<String> {
    extract_all_indicator_aliases_from_condition(id)
}

fn indicator(name: &str, alias: &str, kind: &str) -> IndicatorInfo {
    IndicatorInfo {
        name: name.to_string(),
        alias: alias.to_string(),
        indicator_type: kind.to_string(),
        can_use_indicator_input: true,
        input_type: "price".to_string(),
    }
}

fn priced(id: &str, field: &str) -> ConditionInfo {
    ConditionInfo {
        id: id.to_string(),
        name: id.to_string(),
        operator: ConditionOperator::Above,
        condition_type: "indicator_price".to_string(),
        constant_value: None,
        primary_indicator_alias: "unused".to_string(),
        secondary_indicator_alias: None,
        primary_timeframe: None,
        secondary_timeframe: None,
        price_field: Some(field.to_string()),
    }
}

#[test]
fn indicator_pairs_are_read_before_the_timeframe() {
    assert_eq!(aliases("ind_ind_sma_ema_tf60"), vec!["sma", "ema"]);
    assert_eq!(aliases("ind_ind_sma_ema"), vec!["sma", "ema"]);
    assert!(aliases("ind_ind_sma").is_empty());
    assert!(aliases("ind_ind_sma_tf60_ema").is_empty());
}

#[test]
fn entry_and_exit_ids_name_two_aliases_before_a_number() {
    assert_eq!(aliases("entry_rsi_sma_123"), vec!["rsi", "sma"]);
    assert_eq!(aliases("exit_atr_sma_+7"), vec!["atr", "sma"]);
    assert_eq!(aliases("entry_rsi_risingtrend_x"), vec!["rsi"]);
    assert_eq!(aliases("entry_rsi_12"), vec!["rsi"]);
    assert_eq!(aliases("exit_a_b_4294967296"), vec!["a"]);
    assert_eq!(aliases("exit_a_b_4294967295"), vec!["a", "b"]);
    assert_eq!(aliases("entry_a_b_-1"), vec!["a"]);
    assert_eq!(aliases("entry_"), vec![""]);
}

#[test]
fn price_and_constant_ids_name_one_alias() {
    assert_eq!(aliases("ind_price_sma_tf15"), vec!["sma"]);
    assert_eq!(aliases("ind_const_rsi_30"), vec!["rsi"]);
    assert_eq!(aliases("ind_price_"), vec![""]);
    assert!(aliases("trend_sma_rising").is_empty());
    assert!(aliases("").is_empty());
}

#[test]
fn the_first_alias_of_an_id() {
    assert_eq!(extract_indicator_alias_from_condition_id("entry_rsi_sma_1"), Some("rsi".to_string()));
    assert_eq!(extract_indicator_alias_from_condition_id("ind_ind_x"), None);
}

#[test]
fn indicator_name_by_condition_id() {
    let candidate = StrategyCandidate {
        indicators: vec![indicator("RSI", "rsi", "oscillator")],
        nested_indicators: vec![],
        conditions: vec![],
        exit_conditions: vec![],
        stop_handlers: vec![],
        take_handlers: vec![],
        timeframes: vec![],
    };
    let name = extract_indicator_name_by_condition_id(&candidate, &priced("entry_rsi_5", "Close"));
    assert_eq!(name, Some("RSI".to_string()));
    assert_eq!(extract_indicator_name_by_condition_id(&candidate, &priced("entry_sma_5", "Close")), None);
}

#[test]
fn volatility_indicators_compared_with_the_close_are_bound() {
    let config = CandidateBuilderConfig::default();
    let atr = indicator("ATR", "atr", "volatility");
    let entries = vec![priced("entry_atr_5", "Close")];
    assert!(should_apply_volatility_constraint(&atr, &entries, &vec![], &config));
    assert!(should_apply_volatility_constraint(&atr, &vec![], &entries, &config));
    assert!(!should_apply_volatility_constraint(&atr, &vec![priced("entry_atr_5", "Open")], &vec![], &config));
    assert!(!should_apply_volatility_constraint(&atr, &vec![priced("entry_sma_5", "Close")], &vec![], &config));
    let sma = indicator("SMA", "atr", "trend");
    assert!(!should_apply_volatility_constraint(&sma, &entries, &vec![], &config));
}

#[test]
fn volatility_percentage_range_of_the_default_rules() {
    let config = CandidateBuilderConfig::default();
    let range = get_volatility_percentage_range(&config, &indicator("ATR", "atr", "volatility"));
    assert_eq!(range, Some(PercentRange { start: 200, end: 10_000, step: 100 }));
    // the rules name no indicator, so the volatility rule covers any indicator
    assert_eq!(
        get_volatility_percentage_range(&config, &indicator("RSI", "rsi", "oscillator")),
        Some(PercentRange { start: 200, end: 10_000, step: 100 })
    );
    let mut named = CandidateBuilderConfig::default();
    named.rules.indicator_parameter_rules[0].indicator_names = vec!["ATR".to_string()];
    assert_eq!(get_volatility_percentage_range(&named, &indicator("RSI", "rsi", "oscillator")), None);
    assert!(get_volatility_percentage_range(&named, &indicator("ATR", "atr", "volatility")).is_some());
}
