//! Configuration of the candidate builder: the limits on each kind of
//! element, the probabilities (in millionths) of adding them, the price
//! fields of conditions and the rules that tie elements together.

use vstd::prelude::*;
use crate::model::close_text;

verus! {

/// How many elements of each kind a candidate may hold.
#[derive(Clone, Copy, Debug, PartialEq, Eq, Structural)]
pub struct ElementConstraints {
    pub min_indicators: usize,
    pub max_indicators: usize,
    pub min_entry_conditions: usize,
    pub max_entry_conditions: usize,
    pub min_exit_conditions: usize,
    pub max_exit_conditions: usize,
    pub min_stop_handlers: usize,
    pub max_stop_handlers: usize,
    pub min_take_handlers: usize,
    pub max_take_handlers: usize,
    pub min_timeframes: usize,
    pub max_timeframes: usize,
}

impl Default for ElementConstraints {
    fn default() -> (r: Self)
        ensures
            r.min_indicators == 1 && r.max_indicators == 4,
            r.min_entry_conditions == 1 && r.max_entry_conditions == 4,
            r.min_exit_conditions == 0 && r.max_exit_conditions == 2,
            r.min_stop_handlers == 1 && r.max_stop_handlers == 1,
            r.min_take_handlers == 0 && r.max_take_handlers == 1,
            r.min_timeframes == 1 && r.max_timeframes == 3,
    {
        ElementConstraints {
            min_indicators: 1,
            max_indicators: 4,
            min_entry_conditions: 1,
            max_entry_conditions: 4,
            min_exit_conditions: 0,
            max_exit_conditions: 2,
            min_stop_handlers: 1,
            max_stop_handlers: 1,
            min_take_handlers: 0,
            max_take_handlers: 1,
            min_timeframes: 1,
            max_timeframes: 3,
        }
    }
}

/// The probabilities, in millionths, of the kinds of conditions and operators.
#[derive(Clone, Copy, Debug, PartialEq, Eq, Structural)]
pub struct ConditionProbabilities {
    pub add_entry_condition: u32,
    pub use_indicator_price_condition: u32,
    pub use_indicator_indicator_condition: u32,
    pub use_crosses_operator: u32,
    pub use_trend_condition: u32,
    pub use_percent_condition: u32,
}

impl Default for ConditionProbabilities {
    fn default() -> (r: Self)
        ensures
            r.add_entry_condition == 700_000,
            r.use_indicator_price_condition == 700_000,
            r.use_indicator_indicator_condition == 500_000,
            r.use_crosses_operator == 400_000,
            r.use_trend_condition == 200_000,
            r.use_percent_condition == 150_000,
    {
        ConditionProbabilities {
            add_entry_condition: 700_000,
            use_indicator_price_condition: 700_000,
            use_indicator_indicator_condition: 500_000,
            use_crosses_operator: 400_000,
            use_trend_condition: 200_000,
            use_percent_condition: 150_000,
        }
    }
}

/// The probabilities, in millionths, of choosing an indicator of each type.
#[derive(Clone, Copy, Debug, PartialEq, Eq, Structural)]
pub struct IndicatorProbabilities {
    pub add_base_indicator: u32,
    pub add_trend_indicator: u32,
    pub add_oscillator_indicator: u32,
    pub add_volume_indicator: u32,
    pub add_volatility_indicator: u32,
    pub add_channel_indicator: u32,
}

impl Default for IndicatorProbabilities {
    fn default() -> (r: Self)
        ensures
            r.add_base_indicator == 800_000,
            r.add_trend_indicator == 600_000,
            r.add_oscillator_indicator == 500_000,
            r.add_volume_indicator == 300_000,
            r.add_volatility_indicator == 400_000,
            r.add_channel_indicator == 500_000,
    {
        IndicatorProbabilities {
            add_base_indicator: 800_000,
            add_trend_indicator: 600_000,
            add_oscillator_indicator: 500_000,
            add_volume_indicator: 300_000,
            add_volatility_indicator: 400_000,
            add_channel_indicator: 500_000,
        }
    }
}

/// The probability, in millionths, of adding a stop-loss handler.
#[derive(Clone, Copy, Debug, PartialEq, Eq, Structural)]
pub struct StopHandlerProbabilities {
    pub add_stop_loss: u32,
}

impl Default for StopHandlerProbabilities {
    fn default() -> (r: Self)
        ensures
            r.add_stop_loss == 900_000,
    {
        StopHandlerProbabilities { add_stop_loss: 900_000 }
    }
}

/// The probability, in millionths, of adding a take-profit handler.
#[derive(Clone, Copy, Debug, PartialEq, Eq, Structural)]
pub struct TakeHandlerProbabilities {
    pub add_take_profit: u32,
}

impl Default for TakeHandlerProbabilities {
    fn default() -> (r: Self)
        ensures
            r.add_take_profit == 700_000,
    {
        TakeHandlerProbabilities { add_take_profit: 700_000 }
    }
}

/// The probabilities, in millionths, of using the base timeframe, a higher
/// timeframe and several timeframes.
#[derive(Clone, Copy, Debug, PartialEq, Eq, Structural)]
pub struct TimeframeProbabilities {
    pub use_base_timeframe: u32,
    pub use_higher_timeframe: u32,
    pub use_multiple_timeframes: u32,
}

impl Default for TimeframeProbabilities {
    fn default() -> (r: Self)
        ensures
            r.use_base_timeframe == 1_000_000,
            r.use_higher_timeframe == 500_000,
            r.use_multiple_timeframes == 200_000,
    {
        TimeframeProbabilities { use_base_timeframe: 1_000_000, use_higher_timeframe: 500_000, use_multiple_timeframes: 200_000 }
    }
}

/// The probability, in millionths, of adding a nested indicator, and how
/// deep indicators may be nested.
#[derive(Clone, Copy, Debug, PartialEq, Eq, Structural)]
pub struct NestedIndicatorProbabilities {
    pub add_nested_indicator: u32,
    pub max_nesting_depth: usize,
}

impl Default for NestedIndicatorProbabilities {
    fn default() -> (r: Self)
        ensures
            r.add_nested_indicator == 300_000,
            r.max_nesting_depth == 2,
    {
        NestedIndicatorProbabilities { add_nested_indicator: 300_000, max_nesting_depth: 2 }
    }
}

/// The probabilities, in millionths, of building on after the first phase
/// and of adding exit rules in a phase.
#[derive(Clone, Copy, Debug, PartialEq, Eq, Structural)]
pub struct PhaseProbabilities {
    pub continue_building: u32,
    pub add_exit_rules: u32,
}

impl Default for PhaseProbabilities {
    fn default() -> (r: Self)
        ensures
            r.continue_building == 600_000,
            r.add_exit_rules == 400_000,
    {
        PhaseProbabilities { continue_building: 600_000, add_exit_rules: 400_000 }
    }
}

/// The probabilities of adding each kind of element, by default.
pub open spec fn default_probabilities() -> ElementProbabilities {
    ElementProbabilities {
        indicators: IndicatorProbabilities {
            add_base_indicator: 800_000,
            add_trend_indicator: 600_000,
            add_oscillator_indicator: 500_000,
            add_volume_indicator: 300_000,
            add_volatility_indicator: 400_000,
            add_channel_indicator: 500_000,
        },
        conditions: ConditionProbabilities {
            add_entry_condition: 700_000,
            use_indicator_price_condition: 700_000,
            use_indicator_indicator_condition: 500_000,
            use_crosses_operator: 400_000,
            use_trend_condition: 200_000,
            use_percent_condition: 150_000,
        },
        stop_handlers: StopHandlerProbabilities { add_stop_loss: 900_000 },
        take_handlers: TakeHandlerProbabilities { add_take_profit: 700_000 },
        timeframes: TimeframeProbabilities {
            use_base_timeframe: 1_000_000,
            use_higher_timeframe: 500_000,
            use_multiple_timeframes: 200_000,
        },
        nested_indicators: NestedIndicatorProbabilities { add_nested_indicator: 300_000, max_nesting_depth: 2 },
        phases: PhaseProbabilities { continue_building: 600_000, add_exit_rules: 400_000 },
    }
}

/// The probabilities, in millionths, of adding each kind of element.
#[derive(Clone, Copy, Debug, PartialEq, Eq, Structural)]
pub struct ElementProbabilities {
    pub indicators: IndicatorProbabilities,
    pub conditions: ConditionProbabilities,
    pub stop_handlers: StopHandlerProbabilities,
    pub take_handlers: TakeHandlerProbabilities,
    pub timeframes: TimeframeProbabilities,
    pub nested_indicators: NestedIndicatorProbabilities,
    pub phases: PhaseProbabilities,
}

impl Default for ElementProbabilities {
    /// Every kind at its default.
    fn default() -> (r: Self)
        ensures
            r == default_probabilities(),
    {
        ElementProbabilities {
            indicators: IndicatorProbabilities::default(),
            conditions: ConditionProbabilities::default(),
            stop_handlers: StopHandlerProbabilities::default(),
            take_handlers: TakeHandlerProbabilities::default(),
            timeframes: TimeframeProbabilities::default(),
            nested_indicators: NestedIndicatorProbabilities::default(),
            phases: PhaseProbabilities::default(),
        }
    }
}

/// The price fields from which conditions on the price choose.
pub struct ConditionConfig {
    pub price_fields: Vec<String>,
}

/// The price fields by default: only "Close".
pub fn default_price_fields() -> (r: Vec<String>)
    ensures
        r@.len() == 1,
        r@[0]@ == close_text(),
{
    proof {
        reveal_strlit("Close");
    }
    let mut v: Vec<String> = Vec::new();
    v.push(crate::text::owned("Close"));
    v
}

impl Default for ConditionConfig {
    fn default() -> (r: Self)
        ensures
            r.price_fields@.len() == 1,
            r.price_fields@[0]@ == close_text(),
    {
        ConditionConfig { price_fields: default_price_fields() }
    }
}

/// An element, or any element of a kind, that a rule speaks of.
pub enum ElementSelector {
    Indicator { name: String },
    StopHandler { name: String },
    TakeHandler { name: String },
    Condition { condition_type: String },
    Timeframe { timeframe: String },
    AnyIndicator,
    AnyStopHandler,
    AnyTakeHandler,
    AnyCondition,
}

impl Clone for ElementSelector {
    fn clone(&self) -> (r: Self)
        ensures
            r == *self,
    {
        match self {
            ElementSelector::Indicator { name } => ElementSelector::Indicator { name: name.clone() },
            ElementSelector::StopHandler { name } => ElementSelector::StopHandler { name: name.clone() },
            ElementSelector::TakeHandler { name } => ElementSelector::TakeHandler { name: name.clone() },
            ElementSelector::Condition { condition_type } => ElementSelector::Condition {
                condition_type: condition_type.clone(),
            },
            ElementSelector::Timeframe { timeframe } => ElementSelector::Timeframe { timeframe: timeframe.clone() },
            ElementSelector::AnyIndicator => ElementSelector::AnyIndicator,
            ElementSelector::AnyStopHandler => ElementSelector::AnyStopHandler,
            ElementSelector::AnyTakeHandler => ElementSelector::AnyTakeHandler,
            ElementSelector::AnyCondition => ElementSelector::AnyCondition,
        }
    }
}

impl ElementSelector {
    /// The selector of the stop handler named `name`.
    pub fn stop_handler(name: String) -> (r: ElementSelector)
        ensures
            r == (ElementSelector::StopHandler { name }),
    {
        ElementSelector::StopHandler { name }
    }

    /// The selector of the take handler named `name`.
    pub fn take_handler(name: String) -> (r: ElementSelector)
        ensures
            r == (ElementSelector::TakeHandler { name }),
    {
        ElementSelector::TakeHandler { name }
    }

    /// The selector of the indicator named `name`.
    pub fn indicator(name: String) -> (r: ElementSelector)
        ensures
            r == (ElementSelector::Indicator { name }),
    {
        ElementSelector::Indicator { name }
    }
}

/// When the trigger is present, the required element must be too; a strict
/// rule adds it.
pub struct DependencyRule {
    pub trigger: ElementSelector,
    pub required: ElementSelector,
    pub strict: bool,
}

/// When the element is present, the excluded one is removed.
pub struct ExclusionRule {
    pub element: ElementSelector,
    pub excluded: ElementSelector,
}

/// A test on the elements of a candidate.
pub enum RuleCondition {
    And { conditions: Vec<ElementSelector> },
    Or { conditions: Vec<ElementSelector> },
    Not { condition: Box<ElementSelector> },
    Element { element: ElementSelector },
}

/// What a conditional rule does when its test holds.
pub enum RuleAction {
    Require { element: ElementSelector, strict: bool },
    Exclude { element: ElementSelector },
    /// The probability is in millionths.
    SetProbability { element: ElementSelector, probability: u32 },
}

/// A rule applied when its test holds.
pub struct ConditionalRule {
    pub condition: RuleCondition,
    pub action: RuleAction,
}

/// How a parameter of an indicator is bounded; the bounds are in
/// thousandths.
#[derive(Clone, Copy, Debug, PartialEq, Eq, Structural)]
pub enum ParameterConstraint {
    PercentageFromPrice { min_percent: u64, max_percent: u64, step: u64 },
    FixedRange { min_value: u64, max_value: u64, step: u64 },
}

/// The price field that an indicator's conditions must use, and how its
/// parameter is then bounded.
pub struct PriceFieldConstraint {
    pub required_price_field: String,
    pub parameter_constraint: ParameterConstraint,
}

/// Parameter rules for the indicators of one type (all of them when no name
/// is listed).
pub struct IndicatorParameterRule {
    pub indicator_type: String,
    pub indicator_names: Vec<String>,
    pub price_field_constraint: Option<PriceFieldConstraint>,
}

/// The rules of a build.
pub struct BuildRules {
    pub dependencies: Vec<DependencyRule>,
    pub exclusions: Vec<ExclusionRule>,
    pub conditions: Vec<ConditionalRule>,
    pub indicator_parameter_rules: Vec<IndicatorParameterRule>,
    /// Indicators that are never chosen.
    pub excluded_indicators: Vec<String>,
    /// Stop handlers that are never chosen.
    pub excluded_stop_handlers: Vec<String>,
}

impl Default for BuildRules {
    /// A stop-loss in percent requires a take-profit in percent; an ATR
    /// trailing stop excludes it; volatility indicators compare with the
    /// close price, by 0.2% to 10% in steps of 0.1%; oscillators have a rule
    /// without constraint; MAXFOR and MINFOR are never chosen; no stop handler
    /// is excluded.
    fn default() -> (r: Self)
        ensures
            r.dependencies@.len() == 1,
            r.dependencies@[0].trigger is StopHandler,
            r.dependencies@[0].trigger->StopHandler_name@ == "StopLossPct"@,
            r.dependencies@[0].required->TakeHandler_name@ == "TakeProfitPct"@,
            r.dependencies@[0].required is TakeHandler,
            r.dependencies@[0].strict,
            r.exclusions@.len() == 1,
            r.exclusions@[0].element is StopHandler,
            r.exclusions@[0].element->StopHandler_name@ == "ATRTrailStop"@,
            r.exclusions@[0].excluded is TakeHandler,
            r.exclusions@[0].excluded->TakeHandler_name@ == "TakeProfitPct"@,
            r.conditions@.len() == 0,
            r.indicator_parameter_rules@.len() == 2,
            r.indicator_parameter_rules@[0].indicator_type@ == "volatility"@,
            r.indicator_parameter_rules@[0].indicator_names@.len() == 0,
            r.indicator_parameter_rules@[0].price_field_constraint matches Some(c) && c.required_price_field@ == "Close"@
                && c.parameter_constraint == (ParameterConstraint::PercentageFromPrice {
                min_percent: 200,
                max_percent: 10_000,
                step: 100,
            }),
            r.indicator_parameter_rules@[1].indicator_type@ == "oscillator"@,
            r.indicator_parameter_rules@[1].indicator_names@.len() == 0,
            r.indicator_parameter_rules@[1].price_field_constraint is None,
            r.excluded_indicators@.len() == 2,
            r.excluded_indicators@[0]@ == "MAXFOR"@,
            r.excluded_indicators@[1]@ == "MINFOR"@,
            r.excluded_stop_handlers@.len() == 0,
    {
        let mut dependencies: Vec<DependencyRule> = Vec::new();
        dependencies.push(
            DependencyRule {
                trigger: ElementSelector::stop_handler(String::from_str("StopLossPct")),
                required: ElementSelector::take_handler(String::from_str("TakeProfitPct")),
                strict: true,
            },
        );
        let mut exclusions: Vec<ExclusionRule> = Vec::new();
        exclusions.push(
            ExclusionRule {
                element: ElementSelector::stop_handler(String::from_str("ATRTrailStop")),
                excluded: ElementSelector::take_handler(String::from_str("TakeProfitPct")),
            },
        );
        let mut indicator_parameter_rules: Vec<IndicatorParameterRule> = Vec::new();
        indicator_parameter_rules.push(
            IndicatorParameterRule {
                indicator_type: String::from_str("volatility"),
                indicator_names: Vec::new(),
                price_field_constraint: Some(
                    PriceFieldConstraint {
                        required_price_field: String::from_str("Close"),
                        parameter_constraint: ParameterConstraint::PercentageFromPrice {
                            min_percent: 200,
                            max_percent: 10_000,
                            step: 100,
                        },
                    },
                ),
            },
        );
        indicator_parameter_rules.push(
            IndicatorParameterRule {
                indicator_type: String::from_str("oscillator"),
                indicator_names: Vec::new(),
                price_field_constraint: None,
            },
        );
        let mut excluded_indicators: Vec<String> = Vec::new();
        excluded_indicators.push(String::from_str("MAXFOR"));
        excluded_indicators.push(String::from_str("MINFOR"));
        BuildRules {
            dependencies,
            exclusions,
            conditions: Vec::new(),
            indicator_parameter_rules,
            excluded_indicators,
            excluded_stop_handlers: Vec::new(),
        }
    }
}

/// The configuration of the candidate builder.
pub struct CandidateBuilderConfig {
    pub probabilities: ElementProbabilities,
    pub constraints: ElementConstraints,
    pub condition_config: ConditionConfig,
    pub rules: BuildRules,
}

impl Default for CandidateBuilderConfig {
    /// Every part at its default.
    fn default() -> (r: Self)
        ensures
            r.constraints == (ElementConstraints {
                min_indicators: 1,
                max_indicators: 4,
                min_entry_conditions: 1,
                max_entry_conditions: 4,
                min_exit_conditions: 0,
                max_exit_conditions: 2,
                min_stop_handlers: 1,
                max_stop_handlers: 1,
                min_take_handlers: 0,
                max_take_handlers: 1,
                min_timeframes: 1,
                max_timeframes: 3,
            }),
            r.probabilities == default_probabilities(),
            r.condition_config.price_fields@.len() == 1,
            r.condition_config.price_fields@[0]@ == close_text(),
            r.rules.excluded_indicators@.len() == 2,
            r.rules.dependencies@.len() == 1,
            r.rules.exclusions@.len() == 1,
    {
        CandidateBuilderConfig {
            probabilities: ElementProbabilities::default(),
            constraints: ElementConstraints::default(),
            condition_config: ConditionConfig::default(),
            rules: BuildRules::default(),
        }
    }
}

} // verus!
