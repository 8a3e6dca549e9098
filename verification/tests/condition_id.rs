use strategy_optimizer::condition_id::{ConditionId, ConditionIdType, ConditionInfoTrait, ConditionPrefix, TrendType};
use strategy_optimizer::model::{ConditionInfo, ConditionOperator, TimeFrame};

#[test]
fn test_create_indicator_price() {
    let id = ConditionId::indicator_price("entry", "sma", 123);
    assert_eq!(id, "entry_sma_123");
}

#[test]
fn test_create_indicator_indicator() {
    let id = ConditionId::indicator_indicator("entry", "vtrand", "zlema", 456);
    assert_eq!(id, "entry_vtrand::zlema_456");
}

#[test]
fn test_create_trend_condition() {
    let id = ConditionId::trend_condition("entry", "amma", TrendType::Rising, 789);
    assert_eq!(id, "entry_amma_risingtrend_789");
}

#[test]
fn test_parse_indicator_price() {
    let parsed = ConditionId::parse("entry_sma_123").unwrap();
    assert_eq!(parsed.primary_alias, "sma");
    assert!(parsed.secondary_alias.is_none());
    assert_eq!(parsed.condition_type, ConditionIdType::Simple);
}

#[test]
fn test_parse_indicator_indicator() {
    let parsed = ConditionId::parse("entry_vtrand::zlema_456").unwrap();
    assert_eq!(parsed.primary_alias, "vtrand");
    assert_eq!(parsed.secondary_alias, Some("zlema".to_string()));
    assert!(parsed.is_indicator_indicator());
}

#[test]
fn test_parse_trend_condition() {
    let parsed = ConditionId::parse("entry_amma_risingtrend_789").unwrap();
    assert_eq!(parsed.primary_alias, "amma");
    assert!(parsed.is_trend_condition());
    assert_eq!(parsed.trend_type, Some(TrendType::Rising));
}

#[test]
fn test_parse_nested_alias() {
    let parsed = ConditionId::parse("entry_geomean_on_rsi_risingtrend_111").unwrap();
    assert_eq!(parsed.primary_alias, "geomean_on_rsi");
    assert!(parsed.is_trend_condition());
}

#[test]
fn test_prefix_for() {
    assert_eq!(ConditionId::prefix_for(true), "entry");
    assert_eq!(ConditionId::prefix_for(false), "exit");
}

#[test]
fn test_is_indicator_indicator() {
    assert!(ConditionId::is_indicator_indicator("entry_sma::ema_123"));
    assert!(!ConditionId::is_indicator_indicator("entry_sma_123"));
}

#[test]
fn test_is_trend_condition() {
    assert!(ConditionId::is_trend_condition("entry_sma_risingtrend_123"));
    assert!(ConditionId::is_trend_condition("exit_rsi_fallingtrend_456"));
    assert!(!ConditionId::is_trend_condition("entry_sma_123"));
}

#[test]
fn parse_exit_prefix_and_entry_flags() {
    let parsed = ConditionId::parse("exit_rsi_fallingtrend_456").unwrap();
    assert_eq!(parsed.prefix, ConditionPrefix::Exit);
    assert!(parsed.is_exit());
    assert!(!parsed.is_entry());
    assert_eq!(parsed.trend_type, Some(TrendType::Falling));
    assert_eq!(parsed.primary_alias, "rsi");
}

#[test]
fn parse_rejects_unknown_prefix() {
    assert!(ConditionId::parse("middle_sma_123").is_none());
    assert!(ConditionId::parse("").is_none());
}

#[test]
fn created_ids_parse_back() {
    let id = ConditionId::indicator_price("exit", "bb_upper", 42);
    let parsed = ConditionId::parse(&id).unwrap();
    assert_eq!(parsed.primary_alias, "bb_upper");
    assert_eq!(parsed.prefix, ConditionPrefix::Exit);
    assert_eq!(parsed.condition_type, ConditionIdType::Simple);

    let id = ConditionId::indicator_indicator("entry", "sma_fast", "ema", 7);
    let parsed = ConditionId::parse(&id).unwrap();
    assert_eq!(parsed.primary_alias, "sma_fast");
    assert_eq!(parsed.secondary_alias, Some("ema".to_string()));
}

#[test]
fn exit_wrapper_and_prefixes() {
    assert_eq!(ConditionId::entry_prefix(), "entry");
    assert_eq!(ConditionId::exit_prefix(), "exit");
    assert_eq!(ConditionId::exit_wrapper("sma_123"), "exit_sma_123");
    assert_eq!(ConditionPrefix::Entry.as_str(), "entry");
    assert_eq!(TrendType::Rising.as_str(), "risingtrend");
    assert_eq!(TrendType::Falling.display_name(), "FallingTrend");
    assert_eq!(TrendType::from_operator_name("RisingTrend"), Some(TrendType::Rising));
    assert_eq!(TrendType::from_operator_name("Above"), None);
}

#[test]
fn ids_with_timeframes() {
    let h1 = TimeFrame::from_minutes(60);
    let h4 = TimeFrame::from_minutes(240);
    assert_eq!(
        ConditionId::indicator_price_with_timeframes("entry", "sma", "Close", "Above", &h1, &h4),
        "entry_sma_Close_Above_60_240"
    );
    assert_eq!(
        ConditionId::indicator_indicator_with_timeframes("exit", "sma", "ema", "Below", &h1, &h4),
        "exit_sma::ema_Below_tf60_tf240"
    );
    assert_eq!(ConditionId::indicator_constant("entry", "rsi", 5), "entry_rsi_5");
}

fn condition(id: &str, primary: &str, secondary: Option<&str>, tf1: Option<u32>, tf2: Option<u32>) -> ConditionInfo {
    ConditionInfo {
        id: id.to_string(),
        name: id.to_string(),
        operator: ConditionOperator::Above,
        condition_type: "indicator_indicator".to_string(),
        constant_value: None,
        primary_indicator_alias: primary.to_string(),
        secondary_indicator_alias: secondary.map(|s| s.to_string()),
        primary_timeframe: tf1.map(TimeFrame::from_minutes),
        secondary_timeframe: tf2.map(TimeFrame::from_minutes),
        price_field: None,
    }
}

#[test]
fn required_timeframes_collects_per_alias() {
    let base = TimeFrame::from_minutes(60);
    let conds = vec![
        condition("entry_sma::ema_1", "sma", Some("ema"), Some(240), None),
        condition("entry_sma_2", "sma", None, None, None),
    ];
    let req = ConditionId::collect_required_timeframes(&conds, &base);
    let sma = req.iter().find(|r| r.alias == "sma").unwrap();
    assert!(sma.timeframes.contains(&TimeFrame::from_minutes(240)));
    assert!(sma.timeframes.contains(&base));
    let ema = req.iter().find(|r| r.alias == "ema").unwrap();
    assert!(ema.timeframes.contains(&base));
}

#[test]
fn condition_info_trait_reads_the_fields() {
    let c = condition("entry_sma::ema_1", "sma", Some("ema"), Some(240), None);
    assert_eq!(c.condition_id(), "entry_sma::ema_1");
    assert_eq!(ConditionInfoTrait::condition_type(&c), "indicator_indicator");
    assert_eq!(ConditionInfoTrait::primary_timeframe(&c), Some(&TimeFrame::from_minutes(240)));
    assert_eq!(ConditionInfoTrait::secondary_timeframe(&c), None);
    assert_eq!(ConditionInfoTrait::primary_indicator_alias(&c), Some("sma".to_string()));
    assert_eq!(ConditionInfoTrait::secondary_indicator_alias(&c), Some("ema".to_string()));
}

#[test]
fn built_identifiers_read_back_as_made() {
    for prefix in ["entry", "exit"] {
        let p = ConditionId::parse(&ConditionId::indicator_price(prefix, "rsi_on_sma", 42)).unwrap();
        assert_eq!(p.prefix.as_str(), prefix);
        assert_eq!(p.condition_type, ConditionIdType::Simple);
        assert_eq!(p.primary_alias, "rsi_on_sma");
        assert!(p.secondary_alias.is_none() && p.trend_type.is_none());
        let p = ConditionId::parse(&ConditionId::indicator_indicator(prefix, "ema_fast", "sma_slow", 7)).unwrap();
        assert_eq!(p.condition_type, ConditionIdType::IndicatorIndicator);
        assert_eq!(p.primary_alias, "ema_fast");
        assert_eq!(p.secondary_alias, Some("sma_slow".to_string()));
        let p = ConditionId::parse(&ConditionId::trend_condition(prefix, "wma_on_rsi", TrendType::Falling, 0)).unwrap();
        assert_eq!(p.condition_type, ConditionIdType::TrendCondition);
        assert_eq!(p.primary_alias, "wma_on_rsi");
        assert_eq!(p.trend_type, Some(TrendType::Falling));
    }
}
