use strategy_optimizer::build_rules::{
    can_accept_nested_input, can_be_nested_input, can_compare_with_input_source, can_compare_with_nested_result,
    get_allowed_conditions, get_build_rules, get_build_rules_or_default, has_absolute_threshold, has_no_threshold,
    has_percent_of_price_threshold, indicator_compare_enabled, is_oscillator_like, is_phase_1_allowed,
    price_compare_enabled, standard_registry, supports_percent_condition, BuildRulesRegistry, CompareConfig, IndicatorBuildRules,
    NestingConfig, ThresholdType,
};
use strategy_optimizer::config::{
    BuildRules, CandidateBuilderConfig, ConditionConfig, ConditionProbabilities, DependencyRule, ElementConstraints,
    ElementSelector, ExclusionRule, IndicatorProbabilities, RuleAction, RuleCondition,
};
use strategy_optimizer::model::{ConditionInfo, ConditionOperator, IndicatorInfo, NestedIndicator, StopHandlerConfig, TimeFrame};
use strategy_optimizer::operands::{
    constants_equal_exec, extract_operands, has_conflicting_comparison_operator, is_comparison_operator, is_duplicate_condition,
};
use strategy_optimizer::rules::{
    apply_rules, evaluate_condition, make_handler_params, matches_selector, remove_excluded_element, CandidateElements,
};
use strategy_optimizer::selection::{
    build_condition_with_timeframe, category_from_str, is_oscillator_used_in_nested, select_random_trend_indicator,
    select_single_indicator, select_single_indicator_with_draws, select_single_stop_handler_required, weighted_choice_for_oscillator_based,
    weighted_condition_type_choice, IndicatorCategory, OperatorSelectorFactory,
};
use strategy_optimizer::model::ConditionKind;

fn rules(threshold: ThresholdType, phase_1: bool) -> IndicatorBuildRules {
    IndicatorBuildRules {
        phase_1_allowed: phase_1,
        threshold_type: threshold,
        nesting: NestingConfig { accepts_input: true, can_be_input: false },
        supports_percent_condition: true,
        can_compare_with_input_source: false,
        can_compare_with_nested_result: true,
        indicator_compare: CompareConfig { enabled: false },
        price_compare: CompareConfig { enabled: false },
        allowed_conditions: vec![ConditionOperator::Above, ConditionOperator::Below, ConditionOperator::CrossesAbove],
    }
}

fn registry() -> BuildRulesRegistry {
    let mut r = BuildRulesRegistry::new(rules(ThresholdType::NoThreshold, true));
    r.insert("RSI".to_string(), rules(ThresholdType::Absolute, false));
    r.insert("ATR".to_string(), rules(ThresholdType::PercentOfPrice, true));
    r
}

#[test]
fn registry_answers_for_known_and_unknown_indicators() {
    let r = registry();
    assert!(get_build_rules(&r, "RSI").is_some());
    assert!(get_build_rules(&r, "SMA").is_none());
    assert_eq!(get_build_rules_or_default(&r, "SMA").threshold_type, ThresholdType::NoThreshold);
    assert!(!is_phase_1_allowed(&r, "RSI"));
    assert!(is_phase_1_allowed(&r, "SMA"));
    assert!(has_absolute_threshold(&r, "RSI"));
    assert!(!has_absolute_threshold(&r, "SMA"));
    assert!(has_percent_of_price_threshold(&r, "ATR"));
    assert!(!has_no_threshold(&r, "RSI"));
    assert!(!has_no_threshold(&r, "SMA"));
    assert!(can_accept_nested_input(&r, "RSI"));
    assert!(!can_accept_nested_input(&r, "SMA"));
    assert!(!can_be_nested_input(&r, "RSI"));
    assert!(supports_percent_condition(&r, "ATR"));
    assert!(!can_compare_with_input_source(&r, "ATR"));
    assert!(can_compare_with_nested_result(&r, "ATR"));
    assert!(!indicator_compare_enabled(&r, "RSI"));
    assert!(!indicator_compare_enabled(&r, "SMA"));
    assert!(!price_compare_enabled(&r, "RSI"));
    assert!(price_compare_enabled(&r, "SMA"));
    assert!(is_oscillator_like(&r, "RSI"));
    assert!(!is_oscillator_like(&r, "ATR"));
    assert_eq!(get_allowed_conditions(&r, "RSI").len(), 3);
    assert_eq!(get_allowed_conditions(&r, "SMA"), vec![ConditionOperator::Above, ConditionOperator::Below]);
}

#[test]
fn registry_insert_replaces() {
    let mut r = registry();
    r.insert("RSI".to_string(), rules(ThresholdType::NoThreshold, true));
    assert!(has_no_threshold(&r, "RSI"));
    assert!(is_phase_1_allowed(&r, "RSI"));
    assert!(has_percent_of_price_threshold(&r, "ATR"));
}

fn condition(id: &str, kind: &str, primary: &str, secondary: Option<&str>, op: ConditionOperator) -> ConditionInfo {
    ConditionInfo {
        id: id.to_string(),
        name: id.to_string(),
        operator: op,
        condition_type: kind.to_string(),
        constant_value: None,
        primary_indicator_alias: primary.to_string(),
        secondary_indicator_alias: secondary.map(|s| s.to_string()),
        primary_timeframe: None,
        secondary_timeframe: None,
        price_field: None,
    }
}

#[test]
fn operands_and_conflicts() {
    let a = condition("entry_sma::ema_1", "indicator_indicator", "sma", Some("ema"), ConditionOperator::Above);
    let b = condition("entry_ema::sma_2", "indicator_indicator", "ema", Some("sma"), ConditionOperator::Below);
    let oa = extract_operands(&a).unwrap();
    let ob = extract_operands(&b).unwrap();
    assert!(oa.same_operands(&ob));
    assert!(ob.same_operands(&oa));
    assert!(has_conflicting_comparison_operator(&b, &[a.clone()]));
    let trend = condition("entry_sma_risingtrend_3", "trend_condition", "sma", None, ConditionOperator::RisingTrend);
    assert!(extract_operands(&trend).is_none());
    assert!(!has_conflicting_comparison_operator(&trend, &[a.clone()]));
    assert!(is_comparison_operator(&ConditionOperator::CrossesAbove));
    assert!(!is_comparison_operator(&ConditionOperator::Between));
    let price = condition("entry_sma_4", "indicator_price", "sma", None, ConditionOperator::Above);
    let constant = condition("entry_sma_5", "indicator_constant", "sma", None, ConditionOperator::Above);
    assert!(!extract_operands(&price).unwrap().same_operands(&extract_operands(&constant).unwrap()));
}

#[test]
fn duplicates_need_the_same_parts() {
    let a = condition("entry_sma_1", "indicator_price", "sma", None, ConditionOperator::Above);
    let mut b = condition("entry_sma_2", "indicator_price", "sma", None, ConditionOperator::Above);
    assert!(is_duplicate_condition(&b, &[a.clone()]));
    b.primary_timeframe = Some(TimeFrame::from_minutes(60));
    assert!(!is_duplicate_condition(&b, &[a.clone()]));
    let c = condition("entry_sma_3", "indicator_price", "sma", None, ConditionOperator::Below);
    assert!(!is_duplicate_condition(&c, &[a]));
}

fn stop_config(name: &str, stop_type: &str, param: &str) -> StopHandlerConfig {
    StopHandlerConfig {
        handler_name: name.to_string(),
        stop_type: stop_type.to_string(),
        parameter_name: param.to_string(),
        global_param_name: None,
        priority: 10,
    }
}

fn stop_handler(name: &str, stop_type: &str) -> strategy_optimizer::model::StopHandlerInfo {
    strategy_optimizer::model::StopHandlerInfo {
        id: format!("stop_{}", name),
        name: name.to_string(),
        handler_name: name.to_string(),
        stop_type: stop_type.to_string(),
        optimization_params: vec![],
        priority: 10,
    }
}

fn elements() -> CandidateElements {
    CandidateElements {
        indicators: vec![],
        nested_indicators: vec![],
        entry_conditions: vec![],
        exit_conditions: vec![],
        stop_handlers: vec![],
        take_handlers: vec![],
        timeframes: vec![],
    }
}

#[test]
fn selectors_and_rule_conditions() {
    let mut c = elements();
    c.stop_handlers.push(stop_handler("StopLossPct", "stop_loss"));
    assert!(matches_selector(&ElementSelector::stop_handler("StopLossPct".to_string()), &c));
    assert!(!matches_selector(&ElementSelector::take_handler("TakeProfitPct".to_string()), &c));
    assert!(matches_selector(&ElementSelector::AnyStopHandler, &c));
    assert!(!matches_selector(&ElementSelector::Timeframe { timeframe: "60".to_string() }, &c));
    let both = RuleCondition::And {
        conditions: vec![ElementSelector::AnyStopHandler, ElementSelector::take_handler("TakeProfitPct".to_string())],
    };
    assert!(!evaluate_condition(&both, &c));
    let either = RuleCondition::Or {
        conditions: vec![ElementSelector::AnyStopHandler, ElementSelector::take_handler("TakeProfitPct".to_string())],
    };
    assert!(evaluate_condition(&either, &c));
    let not = RuleCondition::Not { condition: Box::new(ElementSelector::AnyTakeHandler) };
    assert!(evaluate_condition(&not, &c));
}

#[test]
fn excluded_elements_are_removed() {
    let mut c = elements();
    c.take_handlers.push(stop_handler("TakeProfitPct", "take_profit"));
    c.take_handlers.push(stop_handler("Other", "take_profit"));
    let sel = ElementSelector::take_handler("TakeProfitPct".to_string());
    remove_excluded_element(&sel, &mut c);
    assert_eq!(c.take_handlers.len(), 1);
    assert_eq!(c.take_handlers[0].handler_name, "Other");
    assert!(!matches_selector(&sel, &c));
}

#[test]
fn handler_params_cover_all_configs_of_the_handler() {
    let configs = vec![
        stop_config("StopLossPct", "stop_loss", "percentage"),
        stop_config("ATRTrailStop", "stop_loss", "period"),
        stop_config("ATRTrailStop", "stop_loss", "coeff_atr"),
    ];
    let params = make_handler_params(&configs[1], &configs);
    let names: Vec<String> = params.iter().map(|p| p.name.clone()).collect();
    assert_eq!(names, vec!["period".to_string(), "coeff_atr".to_string()]);
}

fn builder_config() -> CandidateBuilderConfig {
    CandidateBuilderConfig::default()
}

#[test]
fn default_configuration() {
    let config = builder_config();
    assert_eq!(config.constraints.max_indicators, 4);
    assert_eq!(config.condition_config.price_fields, vec!["Close".to_string()]);
    assert_eq!(config.rules.excluded_indicators, vec!["MAXFOR".to_string(), "MINFOR".to_string()]);
    assert_eq!(config.rules.dependencies.len(), 1);
    assert_eq!(config.rules.exclusions.len(), 1);
    assert_eq!(config.rules.indicator_parameter_rules.len(), 2);
    assert_eq!(ElementConstraints::default().max_exit_conditions, 2);
    assert_eq!(ConditionProbabilities::default().use_trend_condition, 200_000);
    assert_eq!(IndicatorProbabilities::default().add_base_indicator, 800_000);
    assert_eq!(ConditionConfig::default().price_fields.len(), 1);
}

#[test]
fn default_rules_add_take_profit_to_stop_loss() {
    let config = builder_config();
    let mut c = elements();
    c.stop_handlers.push(stop_handler("StopLossPct", "stop_loss"));
    let available = vec![stop_config("TakeProfitPct", "take_profit", "percentage")];
    let mut rng = rand::thread_rng();
    apply_rules(&mut c, &available, &config.rules, &config, &mut rng);
    assert_eq!(c.take_handlers.len(), 1);
    assert_eq!(c.take_handlers[0].handler_name, "TakeProfitPct");
    assert!(c.take_handlers[0].id.starts_with("take_"));
    assert_eq!(c.take_handlers[0].optimization_params.len(), 1);
}

#[test]
fn default_rules_drop_take_profit_beside_trailing_stop() {
    let config = builder_config();
    let mut c = elements();
    c.stop_handlers.push(stop_handler("ATRTrailStop", "stop_loss"));
    c.take_handlers.push(stop_handler("TakeProfitPct", "take_profit"));
    let mut rng = rand::thread_rng();
    apply_rules(&mut c, &[], &config.rules, &config, &mut rng);
    assert!(c.take_handlers.is_empty());
}

#[test]
fn custom_rules_exclude_and_require() {
    let config = builder_config();
    let rules = BuildRules {
        dependencies: vec![DependencyRule {
            trigger: ElementSelector::AnyStopHandler,
            required: ElementSelector::stop_handler("Backup".to_string()),
            strict: false,
        }],
        exclusions: vec![ExclusionRule {
            element: ElementSelector::AnyStopHandler,
            excluded: ElementSelector::indicator("SMA".to_string()),
        }],
        conditions: vec![strategy_optimizer::config::ConditionalRule {
            condition: RuleCondition::Element { element: ElementSelector::AnyStopHandler },
            action: RuleAction::Require { element: ElementSelector::stop_handler("Guard".to_string()), strict: true },
        }],
        indicator_parameter_rules: vec![],
        excluded_indicators: vec![],
        excluded_stop_handlers: vec![],
    };
    let mut c = elements();
    c.stop_handlers.push(stop_handler("StopLossPct", "stop_loss"));
    c.indicators.push(indicator("SMA", "sma", "trend"));
    let mut rng = rand::thread_rng();
    apply_rules(&mut c, &[], &rules, &config, &mut rng);
    assert!(c.indicators.is_empty());
    let names: Vec<String> = c.stop_handlers.iter().map(|h| h.handler_name.clone()).collect();
    assert_eq!(names, vec!["StopLossPct".to_string(), "Guard".to_string()]);
    assert_eq!(c.stop_handlers[1].priority, 100);
}

fn indicator(name: &str, alias: &str, kind: &str) -> IndicatorInfo {
    IndicatorInfo {
        name: name.to_string(),
        alias: alias.to_string(),
        indicator_type: kind.to_string(),
        can_use_indicator_input: true,
        input_type: "price".to_string(),
    }
}

#[test]
fn categories_from_types() {
    assert_eq!(category_from_str("oscillator"), IndicatorCategory::Oscillator);
    assert_eq!(category_from_str("trend"), IndicatorCategory::Trend);
    assert_eq!(category_from_str("volatility"), IndicatorCategory::Volatility);
    assert_eq!(category_from_str("channel"), IndicatorCategory::Channel);
    assert_eq!(category_from_str("volume"), IndicatorCategory::Volume);
    assert_eq!(category_from_str("anything"), IndicatorCategory::Custom);
}

#[test]
fn weighted_choices_respect_zero_weights() {
    let mut rng = rand::thread_rng();
    let only_trend = ConditionProbabilities {
        use_indicator_price_condition: 0,
        use_indicator_indicator_condition: 0,
        use_trend_condition: 300_000,
        ..ConditionProbabilities::default()
    };
    for _ in 0..20 {
        assert_eq!(weighted_condition_type_choice(&only_trend, &mut rng), ConditionKind::TrendCondition);
        assert_eq!(weighted_choice_for_oscillator_based(&only_trend, &mut rng), ConditionKind::TrendCondition);
    }
    let none = ConditionProbabilities {
        use_indicator_price_condition: 0,
        use_indicator_indicator_condition: 0,
        use_trend_condition: 0,
        ..ConditionProbabilities::default()
    };
    assert_eq!(weighted_condition_type_choice(&none, &mut rng), ConditionKind::IndicatorPrice);
    assert_eq!(weighted_choice_for_oscillator_based(&none, &mut rng), ConditionKind::IndicatorIndicator);
}

#[test]
fn trend_indicator_choice() {
    let mut rng = rand::thread_rng();
    let offered = vec![indicator("RSI", "rsi", "oscillator"), indicator("KAMA", "kama", "trend")];
    assert_eq!(select_random_trend_indicator(&offered, &mut rng), Some("KAMA".to_string()));
    let defaults = ["SMA", "EMA", "WMA", "AMA", "ZLEMA"];
    let picked = select_random_trend_indicator(&[], &mut rng).unwrap();
    assert!(defaults.contains(&picked.as_str()));
}

#[test]
fn required_stop_handler_is_an_allowed_stop_loss() {
    let mut rng = rand::thread_rng();
    let mut config = builder_config();
    config.rules.excluded_stop_handlers = vec!["StopLossPct".to_string()];
    let available = vec![
        stop_config("StopLossPct", "stop_loss", "percentage"),
        stop_config("TakeProfitPct", "take_profit", "percentage"),
        stop_config("ATRTrailIndicatorStop", "stop_loss", "period"),
    ];
    let trend = vec![indicator("KAMA", "kama", "trend")];
    let h = select_single_stop_handler_required(&available, &trend, &config, &mut rng).unwrap();
    assert_eq!(h.handler_name, "ATRTrailIndicatorStop:KAMA");
    assert_eq!(h.stop_type, "stop_loss");
    assert!(h.id.starts_with("stop_"));
    let only_take = vec![stop_config("TakeProfitPct", "take_profit", "percentage")];
    assert!(select_single_stop_handler_required(&only_take, &trend, &config, &mut rng).is_none());
}

#[test]
fn price_condition_for_an_indicator() {
    let mut rng = rand::thread_rng();
    let config = builder_config();
    let ind = indicator("SMA", "sma", "trend");
    let c = build_condition_with_timeframe(&ind, false, Some(TimeFrame::from_minutes(240)), &config, &mut rng).unwrap();
    assert!(c.id.starts_with("exit_sma_"));
    assert!(c.name == "SMA Above target" || c.name == "SMA Below target");
    assert_eq!(c.condition_type, "indicator_price");
    assert_eq!(c.price_field, Some("Close".to_string()));
    assert_eq!(c.primary_timeframe, Some(TimeFrame::from_minutes(240)));
}

#[test]
fn single_indicator_choice_skips_excluded() {
    let mut rng = rand::thread_rng();
    let config = builder_config();
    let r = registry();
    let probabilities = IndicatorProbabilities {
        add_base_indicator: 1_000_000,
        add_trend_indicator: 1_000_000,
        add_oscillator_indicator: 1_000_000,
        add_volume_indicator: 1_000_000,
        add_volatility_indicator: 1_000_000,
        add_channel_indicator: 1_000_000,
    };
    let available = vec![indicator("MAXFOR", "maxfor", "trend"), indicator("RSI", "rsi", "oscillator"), indicator("SMA", "sma", "trend")];
    let exclude = vec!["sma".to_string()];
    for _ in 0..10 {
        assert!(select_single_indicator(&r, &available, &probabilities, &exclude, true, &config, &mut rng).is_none());
    }
    let picked = select_single_indicator(&r, &available, &probabilities, &vec![], false, &config, &mut rng).unwrap();
    assert!(picked.name == "RSI" || picked.name == "SMA");
}

#[test]
fn nesting_and_operator_choice() {
    let mut rng = rand::thread_rng();
    let rsi = indicator("RSI", "rsi", "oscillator");
    let nested = vec![NestedIndicator { indicator: indicator("SMA", "sma_on_rsi", "trend"), input_indicator_alias: "rsi".to_string(), depth: 1 }];
    assert!(is_oscillator_used_in_nested(&rsi, &nested));
    assert!(!is_oscillator_used_in_nested(&indicator("EMA", "ema", "trend"), &nested));
    let (op, kind) = OperatorSelectorFactory::select_operator_and_condition_type(
        &rsi,
        &nested,
        &[rsi.clone()],
        &ConditionProbabilities::default(),
        &mut rng,
    );
    assert_eq!(kind, ConditionKind::IndicatorIndicator);
    assert!(op == ConditionOperator::Above || op == ConditionOperator::Below);
}

#[test]
fn constants_compare_by_value() {
    assert!(constants_equal_exec(&Some(70_500), &Some(70_500)));
    assert!(!constants_equal_exec(&Some(70_500), &Some(70_000)));
    assert!(constants_equal_exec(&None, &None));
    assert!(!constants_equal_exec(&None, &Some(0)));
}

#[test]
fn single_indicator_draws_keep_by_coin_and_pick_by_position() {
    let config = builder_config();
    let r = registry();
    let available = vec![indicator("MAXFOR", "maxfor", "trend"), indicator("RSI", "rsi", "oscillator"), indicator("SMA", "sma", "trend"), indicator("EMA", "ema", "trend")];
    let coins = vec![true, true, false, true];
    let picked = select_single_indicator_with_draws(&r, &available, &vec![], false, &config, &coins, 1).unwrap();
    assert_eq!(picked.alias, "ema");
    let picked = select_single_indicator_with_draws(&r, &available, &vec![], false, &config, &coins, 2).unwrap();
    assert_eq!(picked.alias, "rsi");
    assert!(select_single_indicator_with_draws(&r, &available, &vec![], false, &config, &vec![true, false, false, false], 0).is_none());
    assert!(select_single_indicator_with_draws(&r, &available, &vec![], false, &config, &vec![], 0).is_none());
}

#[test]
fn the_standard_table_holds_the_seventeen_indicators() {
    let mut entries: Vec<Option<IndicatorBuildRules>> = (0..17).map(|_| Some(rules(ThresholdType::NoThreshold, true))).collect();
    entries[12] = Some(rules_with_absolute());
    entries[16] = None;
    let table = standard_registry(entries, rules(ThresholdType::NoThreshold, false));
    for name in ["SMA", "EMA", "WMA", "AMA", "AMMA", "ZLEMA", "SINEWMA", "SQWMA", "GEOMEAN", "TPBF", "SuperTrend", "VTRAND", "RSI", "Stochastic", "ATR", "WATR"] {
        assert!(get_build_rules(&table, name).is_some(), "{}", name);
    }
    assert!(get_build_rules(&table, "TrueRange").is_none());
    assert!(get_build_rules(&table, "sma").is_none());
    assert!(has_absolute_threshold(&table, "RSI"));
    assert!(!has_absolute_threshold(&table, "SMA"));
}

fn rules_with_absolute() -> IndicatorBuildRules {
    rules(ThresholdType::Absolute, false)
}
