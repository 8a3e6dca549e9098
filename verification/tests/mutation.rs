use strategy_optimizer::model::{
    ConditionInfo, ConditionOperator, IndicatorInfo, NestedIndicator, StopHandlerConfig, StopHandlerInfo,
    StrategyCandidate, TimeFrame,
};
use strategy_optimizer::mutation::{
    apply_nested_mutation, apply_stop_mutation, apply_take_mutation, apply_timeframe_mutation, mutate_nested_indicators,
    mutate_stop_handlers, mutate_take_handlers, mutate_timeframes,
};

fn config(name: &str, kind: &str) -> StopHandlerConfig {
    StopHandlerConfig {
        handler_name: name.to_string(),
        stop_type: kind.to_string(),
        parameter_name: "percentage".to_string(),
        global_param_name: None,
        priority: 3,
    }
}

fn handler(id: &str, kind: &str) -> StopHandlerInfo {
    StopHandlerInfo {
        id: id.to_string(),
        name: "Fixed".to_string(),
        handler_name: "Fixed".to_string(),
        stop_type: kind.to_string(),
        optimization_params: vec![],
        priority: 1,
    }
}

fn indicator(alias: &str, kind: &str) -> IndicatorInfo {
    IndicatorInfo {
        name: alias.to_uppercase(),
        alias: alias.to_string(),
        indicator_type: kind.to_string(),
        can_use_indicator_input: true,
        input_type: "price".to_string(),
    }
}

fn condition(id: &str, alias: &str) -> ConditionInfo {
    ConditionInfo {
        id: id.to_string(),
        name: id.to_string(),
        operator: ConditionOperator::Above,
        condition_type: "indicator_price".to_string(),
        constant_value: None,
        primary_indicator_alias: alias.to_string(),
        secondary_indicator_alias: None,
        primary_timeframe: None,
        secondary_timeframe: None,
        price_field: Some("Close".to_string()),
    }
}

fn empty() -> StrategyCandidate {
    StrategyCandidate {
        indicators: vec![],
        nested_indicators: vec![],
        conditions: vec![],
        exit_conditions: vec![],
        stop_handlers: vec![],
        take_handlers: vec![],
        timeframes: vec![],
    }
}

#[test]
fn the_last_stop_handler_is_not_removed_and_one_is_added() {
    let configs = vec![config("ATR", "take_profit"), config("Fixed", "stop_loss")];
    let mut c = StrategyCandidate { stop_handlers: vec![handler("s1", "stop_loss")], ..empty() };
    mutate_stop_handlers(&mut c, &configs);
    assert_eq!(c.stop_handlers.len(), 2);
    let added = &c.stop_handlers[1];
    assert!(added.id.starts_with("stop_"));
    assert!(added.id["stop_".len()..].parse::<u32>().is_ok());
    assert_eq!(added.handler_name, "Fixed");
    assert_eq!(added.name, "Fixed");
    assert_eq!(added.stop_type, "stop_loss");
    assert_eq!(added.priority, 3);
    assert!(added.optimization_params.is_empty());
}

#[test]
fn stop_handlers_stay_without_a_stop_loss_entry() {
    let configs = vec![config("ATR", "take_profit")];
    let mut c = StrategyCandidate { stop_handlers: vec![handler("s1", "stop_loss")], ..empty() };
    mutate_stop_handlers(&mut c, &configs);
    assert_eq!(c.stop_handlers.len(), 1);
    assert_eq!(c.stop_handlers[0].id, "s1");
}

#[test]
fn stop_mutation_removes_or_adds_when_both_are_allowed() {
    let configs = vec![config("Fixed", "stop_loss")];
    for _ in 0..50 {
        let mut c = StrategyCandidate {
            stop_handlers: vec![handler("s1", "stop_loss")],
            take_handlers: vec![handler("t1", "take_profit")],
            ..empty()
        };
        mutate_stop_handlers(&mut c, &configs);
        assert!(c.stop_handlers.is_empty() || c.stop_handlers.len() == 2);
        assert_eq!(c.take_handlers.len(), 1);
    }
}

#[test]
fn take_handlers_need_another_way_to_exit() {
    let configs = vec![config("Fixed", "take_profit")];
    let mut c = empty();
    mutate_take_handlers(&mut c, &configs);
    assert!(c.take_handlers.is_empty());

    let mut c = StrategyCandidate { stop_handlers: vec![handler("s1", "stop_loss")], ..empty() };
    mutate_take_handlers(&mut c, &configs);
    assert_eq!(c.take_handlers.len(), 1);
    assert!(c.take_handlers[0].id.starts_with("take_"));
    assert_eq!(c.take_handlers[0].stop_type, "take_profit");
}

#[test]
fn nested_mutation_without_nested_indicators_changes_nothing() {
    let mut c = StrategyCandidate { indicators: vec![indicator("sma", "trend")], ..empty() };
    mutate_nested_indicators(&mut c, &[indicator("ema", "trend")]);
    assert!(c.nested_indicators.is_empty());
    assert_eq!(c.indicators.len(), 1);
}

#[test]
fn nested_mutation_replaces_with_the_same_type() {
    for _ in 0..50 {
        let mut c = StrategyCandidate {
            indicators: vec![indicator("sma", "trend")],
            nested_indicators: vec![NestedIndicator {
                indicator: indicator("rsi_sma", "oscillator"),
                input_indicator_alias: "sma".to_string(),
                depth: 1,
            }],
            conditions: vec![condition("c1", "sma"), condition("c2", "rsi_sma")],
            ..empty()
        };
        mutate_nested_indicators(&mut c, &[indicator("ema", "trend"), indicator("cci", "oscillator")]);
        if c.conditions.len() == 1 {
            assert_eq!(c.conditions[0].id, "c1");
            assert_eq!(c.nested_indicators.len(), 1);
            assert_eq!(c.nested_indicators[0].indicator.alias, "cci");
            assert_eq!(c.nested_indicators[0].input_indicator_alias, "sma");
            assert_eq!(c.nested_indicators[0].depth, 1);
        } else {
            assert_eq!(c.conditions.len(), 2);
            assert_eq!(c.nested_indicators[0].indicator.alias, "rsi_sma");
        }
    }
}

#[test]
fn timeframes_are_added_no_shorter_than_the_base() {
    let mut c = empty();
    mutate_timeframes(&mut c, TimeFrame::from_minutes(1440));
    assert_eq!(c.timeframes, vec![TimeFrame::from_minutes(1440)]);

    let mut c = empty();
    mutate_timeframes(&mut c, TimeFrame::from_minutes(2000));
    assert!(c.timeframes.is_empty());

    for _ in 0..50 {
        let mut c = StrategyCandidate { timeframes: vec![TimeFrame::from_minutes(60)], ..empty() };
        mutate_timeframes(&mut c, TimeFrame::from_minutes(240));
        assert!(
            c.timeframes.is_empty()
                || c.timeframes == vec![TimeFrame::from_minutes(60), TimeFrame::from_minutes(240)]
                || c.timeframes == vec![TimeFrame::from_minutes(60), TimeFrame::from_minutes(1440)]
        );
    }
}

#[test]
fn stop_draws_pick_what_goes_and_what_comes() {
    let configs = vec![config("ATR", "stop_loss"), config("Fixed", "take_profit"), config("Trail", "stop_loss")];
    let start = StrategyCandidate {
        stop_handlers: vec![handler("s1", "stop_loss"), handler("s2", "stop_loss")],
        ..empty()
    };
    let mut c = start.clone();
    apply_stop_mutation(&mut c, &configs, true, 3, 0);
    assert_eq!(c.stop_handlers.len(), 1);
    assert_eq!(c.stop_handlers[0].id, "s1");
    let mut c = start.clone();
    apply_stop_mutation(&mut c, &configs, false, 1, 77);
    assert_eq!(c.stop_handlers.len(), 3);
    assert_eq!(c.stop_handlers[2].id, "stop_77");
    assert_eq!(c.stop_handlers[2].handler_name, "Trail");
    let mut c = start.clone();
    apply_stop_mutation(&mut c, &[config("Fixed", "take_profit")], false, 0, 5);
    assert_eq!(c.stop_handlers.len(), 2);
}

#[test]
fn take_draws_pick_what_goes_and_what_comes() {
    let configs = vec![config("Fixed", "take_profit"), config("ATR", "stop_loss")];
    let mut c = StrategyCandidate { stop_handlers: vec![handler("s1", "stop_loss")], ..empty() };
    apply_take_mutation(&mut c, &configs, false, 4, 12);
    assert_eq!(c.take_handlers.len(), 1);
    assert_eq!(c.take_handlers[0].id, "take_12");
    assert_eq!(c.take_handlers[0].handler_name, "Fixed");
    apply_take_mutation(&mut c, &configs, true, 0, 0);
    assert!(c.take_handlers.is_empty());
    let mut alone = StrategyCandidate { take_handlers: vec![handler("t1", "take_profit")], ..empty() };
    apply_take_mutation(&mut alone, &configs, true, 0, 0);
    assert_eq!(alone.take_handlers.len(), 1);
}

#[test]
fn timeframe_draws_pick_what_goes_and_what_comes() {
    let start = StrategyCandidate { timeframes: vec![TimeFrame::from_minutes(60), TimeFrame::from_minutes(240)], ..empty() };
    let mut c = start.clone();
    apply_timeframe_mutation(&mut c, TimeFrame::from_minutes(60), true, 3);
    assert_eq!(c.timeframes, vec![TimeFrame::from_minutes(60)]);
    let mut c = start.clone();
    apply_timeframe_mutation(&mut c, TimeFrame::from_minutes(60), false, 2);
    assert_eq!(c.timeframes, vec![TimeFrame::from_minutes(60), TimeFrame::from_minutes(240), TimeFrame::from_minutes(1440)]);
    let mut c = start.clone();
    apply_timeframe_mutation(&mut c, TimeFrame::from_minutes(60), false, 1);
    assert_eq!(c.timeframes, start.timeframes);
    let mut c = start.clone();
    apply_timeframe_mutation(&mut c, TimeFrame::from_minutes(2880), false, 0);
    assert_eq!(c.timeframes, start.timeframes);
}

#[test]
fn nested_draws_pick_what_goes_and_what_comes() {
    let start = StrategyCandidate {
        indicators: vec![indicator("sma", "trend"), indicator("ema", "trend")],
        nested_indicators: vec![NestedIndicator { indicator: indicator("rsi", "oscillator"), input_indicator_alias: "sma".to_string(), depth: 1 }],
        conditions: vec![condition("c1", "sma"), condition("c2", "ema"), condition("c3", "rsi")],
        ..empty()
    };
    let available = vec![indicator("cci", "oscillator"), indicator("wma", "trend"), indicator("mfi", "oscillator")];
    let mut c = start.clone();
    apply_nested_mutation(&mut c, &available, false, 0, 0, 0);
    assert_eq!(c.nested_indicators.len(), 1);
    assert_eq!(c.conditions.len(), 3);
    let mut c = start.clone();
    apply_nested_mutation(&mut c, &available, true, 0, 1, 1);
    assert_eq!(c.conditions.len(), 2);
    assert_eq!(c.nested_indicators.len(), 1);
    assert_eq!(c.nested_indicators[0].indicator.alias, "mfi");
    assert_eq!(c.nested_indicators[0].input_indicator_alias, "ema");
    assert_eq!(c.nested_indicators[0].depth, 1);
}
