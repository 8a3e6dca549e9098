use strategy_optimizer::genetic::{
    enforce_indicator_limits, ensure_minimum_conditions, flip_operator, get_safe_flipped_operator,
    get_used_indicator_aliases, get_used_timeframes, remove_conditions_with_indicator, remove_unused_indicators,
    sync_indicators_with_conditions,
};
use strategy_optimizer::initial::{convert_candidate_elements_to_strategy_candidate, extract_indicator_name_from_condition};
use strategy_optimizer::model::{
    ConditionInfo, ConditionOperator, IndicatorInfo, NestedIndicator, StopHandlerInfo, StrategyCandidate, TimeFrame,
};
use strategy_optimizer::rules::CandidateElements;

fn indicator(name: &str, alias: &str) -> IndicatorInfo {
    IndicatorInfo {
        name: name.to_string(),
        alias: alias.to_string(),
        indicator_type: "trend".to_string(),
        can_use_indicator_input: true,
        input_type: "price".to_string(),
    }
}

fn nested(name: &str, alias: &str, input: &str) -> NestedIndicator {
    NestedIndicator { indicator: indicator(name, alias), input_indicator_alias: input.to_string(), depth: 1 }
}

fn price_condition(id: &str, alias: &str, op: ConditionOperator, tf: Option<u32>) -> ConditionInfo {
    ConditionInfo {
        id: id.to_string(),
        name: id.to_string(),
        operator: op,
        condition_type: "indicator_price".to_string(),
        constant_value: None,
        primary_indicator_alias: alias.to_string(),
        secondary_indicator_alias: None,
        primary_timeframe: tf.map(TimeFrame::from_minutes),
        secondary_timeframe: None,
        price_field: Some("Close".to_string()),
    }
}

fn pair_condition(id: &str, a: &str, b: &str, op: ConditionOperator) -> ConditionInfo {
    ConditionInfo {
        id: id.to_string(),
        name: id.to_string(),
        operator: op,
        condition_type: "indicator_indicator".to_string(),
        constant_value: None,
        primary_indicator_alias: a.to_string(),
        secondary_indicator_alias: Some(b.to_string()),
        primary_timeframe: None,
        secondary_timeframe: Some(TimeFrame::from_minutes(240)),
        price_field: None,
    }
}

fn candidate() -> StrategyCandidate {
    StrategyCandidate {
        indicators: vec![],
        nested_indicators: vec![],
        conditions: vec![],
        exit_conditions: vec![],
        stop_handlers: vec![],
        take_handlers: vec![],
        timeframes: vec![],
    }
}

fn aliases(v: &[IndicatorInfo]) -> Vec<String> {
    v.iter().map(|i| i.alias.clone()).collect()
}

#[test]
fn used_aliases_and_timeframes() {
    let mut c = candidate();
    c.conditions = vec![pair_condition("entry_sma::ema_1", "sma", "ema", ConditionOperator::Above)];
    c.exit_conditions = vec![price_condition("exit_rsi_2", "rsi", ConditionOperator::Below, Some(60))];
    c.nested_indicators = vec![nested("RSI", "rsi_on_sma", "sma")];
    let mut used = get_used_indicator_aliases(&c);
    used.sort();
    assert_eq!(used, vec!["ema".to_string(), "rsi".to_string(), "sma".to_string()]);
    let tfs = get_used_timeframes(&c);
    assert_eq!(tfs.len(), 2);
    assert!(tfs.contains(&TimeFrame::from_minutes(240)));
    assert!(tfs.contains(&TimeFrame::from_minutes(60)));
}

#[test]
fn unused_indicators_and_timeframes_go() {
    let mut c = candidate();
    c.indicators = vec![indicator("SMA", "sma"), indicator("WMA", "wma"), indicator("EMA", "ema")];
    c.nested_indicators = vec![nested("RSI", "rsi_on_wma", "wma"), nested("CCI", "cci_on_x", "x")];
    c.conditions = vec![price_condition("entry_sma_1", "sma", ConditionOperator::Above, Some(60))];
    c.timeframes = vec![TimeFrame::from_minutes(60), TimeFrame::from_minutes(15)];
    remove_unused_indicators(&mut c);
    assert_eq!(aliases(&c.indicators), vec!["sma".to_string(), "wma".to_string()]);
    assert_eq!(c.nested_indicators.len(), 0);
    assert_eq!(c.timeframes, vec![TimeFrame::from_minutes(60)]);
}

#[test]
fn conditions_reading_an_alias_go() {
    let mut c = candidate();
    c.conditions = vec![
        pair_condition("entry_sma::ema_1", "sma", "ema", ConditionOperator::Above),
        price_condition("entry_rsi_2", "rsi", ConditionOperator::Above, None),
    ];
    c.exit_conditions = vec![price_condition("exit_ema_3", "ema", ConditionOperator::Below, None)];
    remove_conditions_with_indicator(&mut c, "ema");
    assert_eq!(c.conditions.len(), 1);
    assert_eq!(c.conditions[0].id, "entry_rsi_2");
    assert!(c.exit_conditions.is_empty());
}

#[test]
fn flipping_operators() {
    assert_eq!(flip_operator(&ConditionOperator::Above), ConditionOperator::Below);
    assert_eq!(flip_operator(&ConditionOperator::CrossesBelow), ConditionOperator::CrossesAbove);
    assert_eq!(flip_operator(&flip_operator(&ConditionOperator::GreaterPercent)), ConditionOperator::GreaterPercent);
    assert_eq!(flip_operator(&ConditionOperator::Between), ConditionOperator::Between);
}

#[test]
fn safe_flip_refuses_a_conflict() {
    let conds = vec![
        price_condition("entry_sma_1", "sma", ConditionOperator::Above, None),
        price_condition("entry_sma_2", "sma", ConditionOperator::Below, None),
    ];
    assert_eq!(get_safe_flipped_operator(&conds, 0), None);
    let alone = vec![price_condition("entry_sma_1", "sma", ConditionOperator::Above, None)];
    assert_eq!(get_safe_flipped_operator(&alone, 0), Some(ConditionOperator::Below));
    let mut trend = price_condition("entry_sma_risingtrend_1", "sma", ConditionOperator::RisingTrend, None);
    trend.condition_type = "trend_condition".to_string();
    assert_eq!(get_safe_flipped_operator(&[trend], 0), Some(ConditionOperator::FallingTrend));
}

#[test]
fn sync_takes_missing_indicators_from_parents() {
    let mut child = candidate();
    child.indicators = vec![indicator("SMA", "sma")];
    child.conditions = vec![
        pair_condition("entry_sma::ema_1", "sma", "ema", ConditionOperator::Above),
        price_condition("entry_rsi_on_x_2", "rsi_on_x", ConditionOperator::Above, None),
    ];
    let mut p1 = candidate();
    p1.indicators = vec![indicator("SMA", "sma")];
    let mut p2 = candidate();
    p2.indicators = vec![indicator("EMA", "ema")];
    p2.nested_indicators = vec![nested("RSI", "rsi_on_x", "x")];
    sync_indicators_with_conditions(&mut child, &p1, &p2);
    assert_eq!(aliases(&child.indicators), vec!["sma".to_string(), "ema".to_string()]);
    assert_eq!(child.nested_indicators.len(), 1);
    assert_eq!(child.nested_indicators[0].indicator.alias, "rsi_on_x");
}

#[test]
fn limits_drop_unused_then_nested_then_plain() {
    let mut c = candidate();
    c.indicators = vec![indicator("A", "a"), indicator("B", "b"), indicator("C", "c")];
    c.nested_indicators = vec![nested("N", "n", "a")];
    c.conditions = vec![
        price_condition("entry_a_1", "a", ConditionOperator::Above, None),
        price_condition("entry_b_2", "b", ConditionOperator::Above, None),
        price_condition("entry_n_3", "n", ConditionOperator::Above, None),
    ];
    enforce_indicator_limits(&mut c, 2);
    assert_eq!(aliases(&c.indicators), vec!["a".to_string(), "b".to_string()]);
    assert!(c.nested_indicators.is_empty());

    let mut d = candidate();
    d.indicators = vec![indicator("A", "a"), indicator("B", "b")];
    d.conditions = vec![
        price_condition("entry_a_1", "a", ConditionOperator::Above, None),
        price_condition("entry_b_2", "b", ConditionOperator::Above, None),
    ];
    enforce_indicator_limits(&mut d, 0);
    assert_eq!(aliases(&d.indicators), vec!["a".to_string()]);

    let mut e = candidate();
    e.indicators = vec![indicator("A", "a")];
    enforce_indicator_limits(&mut e, 1);
    assert_eq!(e.indicators.len(), 1);
}

#[test]
fn minimum_conditions_are_topped_up_from_the_parent() {
    let mut child = candidate();
    let mut parent = candidate();
    parent.indicators = vec![indicator("SMA", "sma"), indicator("EMA", "ema")];
    parent.conditions = vec![
        price_condition("entry_sma_1", "sma", ConditionOperator::Above, None),
        price_condition("entry_ema_2", "ema", ConditionOperator::Below, None),
    ];
    ensure_minimum_conditions(&mut child, &parent, 1);
    assert!(child.conditions.len() <= 2);
    for cond in &child.conditions {
        assert!(child.indicators.iter().any(|i| i.alias == cond.primary_indicator_alias));
    }
    let before = child.conditions.len();
    ensure_minimum_conditions(&mut child, &parent, 0);
    assert_eq!(child.conditions.len(), before);
    let empty = candidate();
    let mut other = candidate();
    ensure_minimum_conditions(&mut other, &empty, 5);
    assert!(other.conditions.is_empty());
}

fn handler(name: &str, stop_type: &str) -> StopHandlerInfo {
    StopHandlerInfo {
        id: format!("stop_{}", name),
        name: name.to_string(),
        handler_name: name.to_string(),
        stop_type: stop_type.to_string(),
        optimization_params: vec![],
        priority: 100,
    }
}

#[test]
fn elements_become_a_candidate_with_handlers_split() {
    let elements = CandidateElements {
        indicators: vec![indicator("SMA", "sma")],
        nested_indicators: vec![],
        entry_conditions: vec![price_condition("entry_sma_1", "sma", ConditionOperator::Above, None)],
        exit_conditions: vec![],
        stop_handlers: vec![handler("StopLossPct", "stop_loss"), handler("TakeProfitPct", "take_profit")],
        take_handlers: vec![handler("ATRTrailStop", "stop_loss")],
        timeframes: vec![TimeFrame::from_minutes(60)],
    };
    let c = convert_candidate_elements_to_strategy_candidate(elements).unwrap();
    let stops: Vec<String> = c.stop_handlers.iter().map(|h| h.handler_name.clone()).collect();
    let takes: Vec<String> = c.take_handlers.iter().map(|h| h.handler_name.clone()).collect();
    assert_eq!(stops, vec!["StopLossPct".to_string(), "ATRTrailStop".to_string()]);
    assert_eq!(takes, vec!["TakeProfitPct".to_string()]);
    assert_eq!(c.conditions.len(), 1);
    assert_eq!(c.timeframes, vec![TimeFrame::from_minutes(60)]);
}

#[test]
fn indicator_name_behind_a_condition() {
    let mut c = candidate();
    c.indicators = vec![indicator("SMA", "sma")];
    c.nested_indicators = vec![nested("RSI", "rsi_on_sma", "sma")];
    let on_plain = price_condition("entry_sma_1", "sma", ConditionOperator::Above, None);
    let on_nested = price_condition("entry_rsi_on_sma_2", "rsi_on_sma", ConditionOperator::Above, None);
    let on_none = price_condition("entry_x_3", "x", ConditionOperator::Above, None);
    assert_eq!(extract_indicator_name_from_condition(&c, &on_plain), Some("SMA".to_string()));
    assert_eq!(extract_indicator_name_from_condition(&c, &on_nested), Some("RSI".to_string()));
    assert_eq!(extract_indicator_name_from_condition(&c, &on_none), None);
}
