//! Choices made while building a candidate: the kind of condition and the
//! operator for an indicator, whether two indicators may be compared, and the
//! random picks of indicators, stop handlers and conditions.

use vstd::prelude::*;
use rand::rngs::ThreadRng;
use crate::build_rules::{is_oscillator_like, oscillator_like, BuildRulesRegistry};
use crate::config::{CandidateBuilderConfig, ConditionProbabilities, IndicatorProbabilities};
use crate::model::{
    close_text, indicator_price_text, kind_string, kind_text, operator_name, ConditionInfo,
    ConditionKind, ConditionOperator, IndicatorInfo, NestedIndicator, StopHandlerConfig,
    StopHandlerInfo, TimeFrame, clone_opt_string,
};
use crate::random::{certain, random_below, random_below_u64, random_ratio, random_u32, should_add};
use crate::rules::{handler_params, make_handler_params, stop_loss_text, take_head, take_profit_text};
use crate::text::{chars_of, decimal, owned, push_decimal, text_is};

verus! {

/// The category of an indicator.
#[derive(Clone, Copy, Debug, PartialEq, Eq, Structural)]
pub enum IndicatorCategory {
    Trend,
    Oscillator,
    Volatility,
    Channel,
    Volume,
    SupportResistance,
    Custom,
}

/// The text "oscillator".
pub open spec fn oscillator_text() -> Seq<char> {
    seq!['o', 's', 'c', 'i', 'l', 'l', 'a', 't', 'o', 'r']
}

/// The text "trend".
pub open spec fn trend_text() -> Seq<char> {
    seq!['t', 'r', 'e', 'n', 'd']
}

/// The text "volatility".
pub open spec fn volatility_text() -> Seq<char> {
    seq!['v', 'o', 'l', 'a', 't', 'i', 'l', 'i', 't', 'y']
}

/// The text "channel".
pub open spec fn channel_text() -> Seq<char> {
    seq!['c', 'h', 'a', 'n', 'n', 'e', 'l']
}

/// The text "volume".
pub open spec fn volume_text() -> Seq<char> {
    seq!['v', 'o', 'l', 'u', 'm', 'e']
}

/// The category named by an indicator type; unknown types are custom.
pub open spec fn category_of(t: Seq<char>) -> IndicatorCategory {
    if t == oscillator_text() {
        IndicatorCategory::Oscillator
    } else if t == volatility_text() {
        IndicatorCategory::Volatility
    } else if t == trend_text() {
        IndicatorCategory::Trend
    } else if t == channel_text() {
        IndicatorCategory::Channel
    } else if t == volume_text() {
        IndicatorCategory::Volume
    } else {
        IndicatorCategory::Custom
    }
}

/// The category named by an indicator type.
pub fn category_from_str(indicator_type: &str) -> (r: IndicatorCategory)
    ensures
        r == category_of(indicator_type@),
{
    let t = chars_of(indicator_type);
    let osc: Vec<char> = vec!['o', 's', 'c', 'i', 'l', 'l', 'a', 't', 'o', 'r'];
    let vol: Vec<char> = vec!['v', 'o', 'l', 'a', 't', 'i', 'l', 'i', 't', 'y'];
    let tr: Vec<char> = vec!['t', 'r', 'e', 'n', 'd'];
    let ch: Vec<char> = vec!['c', 'h', 'a', 'n', 'n', 'e', 'l'];
    let vm: Vec<char> = vec!['v', 'o', 'l', 'u', 'm', 'e'];
    assert(osc@ =~= oscillator_text());
    assert(vol@ =~= volatility_text());
    assert(tr@ =~= trend_text());
    assert(ch@ =~= channel_text());
    assert(vm@ =~= volume_text());
    if crate::text::chars_eq(&t, &osc) {
        IndicatorCategory::Oscillator
    } else if crate::text::chars_eq(&t, &vol) {
        IndicatorCategory::Volatility
    } else if crate::text::chars_eq(&t, &tr) {
        IndicatorCategory::Trend
    } else if crate::text::chars_eq(&t, &ch) {
        IndicatorCategory::Channel
    } else if crate::text::chars_eq(&t, &vm) {
        IndicatorCategory::Volume
    } else {
        IndicatorCategory::Custom
    }
}

/// The kinds of condition that may be chosen for an indicator of a
/// category: for an oscillator, an indicator-indicator condition if another
/// indicator is built on it, else a constant one; for a volatility
/// indicator, a constant one; for the others, an indicator-indicator one if
/// it is built on an oscillator, else a trend, indicator-indicator or price
/// condition, the trend one never when its probability is zero and always
/// when it is certain.
pub open spec fn condition_type_allowed(
    category: IndicatorCategory,
    used_in_nested: bool,
    built_on_oscillator: bool,
    p: ConditionProbabilities,
    k: ConditionKind,
) -> bool {
    match category {
        IndicatorCategory::Oscillator => k == if used_in_nested {
            ConditionKind::IndicatorIndicator
        } else {
            ConditionKind::IndicatorConstant
        },
        IndicatorCategory::Volatility => k == ConditionKind::IndicatorConstant,
        _ => if built_on_oscillator {
            k == ConditionKind::IndicatorIndicator
        } else {
            &&& k != ConditionKind::IndicatorConstant
            &&& p.use_trend_condition == 0 ==> k != ConditionKind::TrendCondition
            &&& certain(p.use_trend_condition) ==> k == ConditionKind::TrendCondition
            &&& (p.use_trend_condition == 0 && p.use_indicator_indicator_condition == 0) ==> k
                == ConditionKind::IndicatorPrice
        },
    }
}

/// Chooses the kind of condition for an indicator of a category.
pub fn select_condition_type(
    category: &IndicatorCategory,
    is_oscillator_used_in_nested: bool,
    is_built_on_oscillator: bool,
    probabilities: &ConditionProbabilities,
    rng: &mut ThreadRng,
) -> (r: ConditionKind)
    ensures
        condition_type_allowed(*category, is_oscillator_used_in_nested, is_built_on_oscillator, *probabilities, r),
{
    match category {
        IndicatorCategory::Oscillator => {
            if is_oscillator_used_in_nested {
                ConditionKind::IndicatorIndicator
            } else {
                ConditionKind::IndicatorConstant
            }
        },
        IndicatorCategory::Volatility => ConditionKind::IndicatorConstant,
        _ => {
            if is_built_on_oscillator {
                ConditionKind::IndicatorIndicator
            } else if should_add(probabilities.use_trend_condition, rng) {
                ConditionKind::TrendCondition
            } else if should_add(probabilities.use_indicator_indicator_condition, rng) {
                ConditionKind::IndicatorIndicator
            } else {
                ConditionKind::IndicatorPrice
            }
        },
    }
}

/// The operators that may be chosen for an indicator of a category and a
/// kind of condition: above or below for an oscillator; greater or lower
/// percent for a volatility indicator; a rising or falling trend for a trend
/// condition; else a crossing (never when its probability is zero, always
/// when it is certain) or above or below.
pub open spec fn operator_allowed(
    category: IndicatorCategory,
    condition_type: Seq<char>,
    p: ConditionProbabilities,
    op: ConditionOperator,
) -> bool {
    match category {
        IndicatorCategory::Oscillator => op == ConditionOperator::Above || op == ConditionOperator::Below,
        IndicatorCategory::Volatility => op == ConditionOperator::GreaterPercent || op
            == ConditionOperator::LowerPercent,
        _ => if condition_type == kind_text(ConditionKind::TrendCondition) {
            op == ConditionOperator::RisingTrend || op == ConditionOperator::FallingTrend
        } else {
            let crosses = op == ConditionOperator::CrossesAbove || op == ConditionOperator::CrossesBelow;
            let plain = op == ConditionOperator::Above || op == ConditionOperator::Below;
            &&& crosses || plain
            &&& p.use_crosses_operator == 0 ==> plain
            &&& certain(p.use_crosses_operator) ==> crosses
        },
    }
}

/// Chooses the operator for an indicator of a category and a kind of condition.
pub fn select_operator(
    category: &IndicatorCategory,
    condition_type: &str,
    probabilities: &ConditionProbabilities,
    rng: &mut ThreadRng,
) -> (r: ConditionOperator)
    ensures
        operator_allowed(*category, condition_type@, *probabilities, r),
{
    match category {
        IndicatorCategory::Oscillator => {
            if random_ratio(rng, 1, 2) {
                ConditionOperator::Above
            } else {
                ConditionOperator::Below
            }
        },
        IndicatorCategory::Volatility => {
            if random_ratio(rng, 1, 2) {
                ConditionOperator::GreaterPercent
            } else {
                ConditionOperator::LowerPercent
            }
        },
        _ => {
            if crate::model::is_kind(condition_type, ConditionKind::TrendCondition) {
                if random_ratio(rng, 1, 2) {
                    ConditionOperator::RisingTrend
                } else {
                    ConditionOperator::FallingTrend
                }
            } else if should_add(probabilities.use_crosses_operator, rng) {
                if random_ratio(rng, 1, 2) {
                    ConditionOperator::CrossesAbove
                } else {
                    ConditionOperator::CrossesBelow
                }
            } else if random_ratio(rng, 1, 2) {
                ConditionOperator::Above
            } else {
                ConditionOperator::Below
            }
        },
    }
}

/// The index of the first nested indicator with the alias `alias`.
pub open spec fn first_nested(ns: Seq<NestedIndicator>, alias: Seq<char>) -> Option<int>
    decreases ns.len(),
{
    if ns.len() == 0 {
        None
    } else {
        match first_nested(ns.drop_last(), alias) {
            Some(i) => Some(i),
            None => if ns.last().indicator.alias@ == alias {
                Some(ns.len() - 1)
            } else {
                None
            },
        }
    }
}

/// The index of the first indicator with the alias `alias`.
pub open spec fn first_indicator(is: Seq<IndicatorInfo>, alias: Seq<char>) -> Option<int>
    decreases is.len(),
{
    if is.len() == 0 {
        None
    } else {
        match first_indicator(is.drop_last(), alias) {
            Some(i) => Some(i),
            None => if is.last().alias@ == alias {
                Some(is.len() - 1)
            } else {
                None
            },
        }
    }
}

/// What the first nested indicator with an alias means.
pub proof fn lemma_first_nested(ns: Seq<NestedIndicator>, alias: Seq<char>)
    ensures
        match first_nested(ns, alias) {
            Some(i) => 0 <= i < ns.len() && ns[i].indicator.alias@ == alias && forall|j: int|
                0 <= j < i ==> (#[trigger] ns[j]).indicator.alias@ != alias,
            None => forall|j: int| 0 <= j < ns.len() ==> (#[trigger] ns[j]).indicator.alias@ != alias,
        },
    decreases ns.len(),
{
    if ns.len() > 0 {
        lemma_first_nested(ns.drop_last(), alias);
        assert forall|j: int| 0 <= j < ns.len() - 1 implies ns.drop_last()[j] == ns[j] by {}
    }
}

/// What the first indicator with an alias means.
pub proof fn lemma_first_indicator(is: Seq<IndicatorInfo>, alias: Seq<char>)
    ensures
        match first_indicator(is, alias) {
            Some(i) => 0 <= i < is.len() && is[i].alias@ == alias && forall|j: int|
                0 <= j < i ==> (#[trigger] is[j]).alias@ != alias,
            None => forall|j: int| 0 <= j < is.len() ==> (#[trigger] is[j]).alias@ != alias,
        },
    decreases is.len(),
{
    if is.len() > 0 {
        lemma_first_indicator(is.drop_last(), alias);
        assert forall|j: int| 0 <= j < is.len() - 1 implies is.drop_last()[j] == is[j] by {}
    }
}

/// The index of the first nested indicator with an alias.
pub fn find_nested(ns: &[NestedIndicator], alias: &String) -> (r: Option<usize>)
    ensures
        match r {
            Some(i) => first_nested(ns@, alias@) == Some(i as int) && i < ns@.len(),
            None => first_nested(ns@, alias@) is None,
        },
{
    let mut i: usize = 0;
    while i < ns.len()
        invariant
            i <= ns@.len(),
            forall|j: int| 0 <= j < i ==> (#[trigger] ns@[j]).indicator.alias@ != alias@,
        decreases ns@.len() - i,
    {
        if ns[i].indicator.alias == *alias {
            proof {
                lemma_first_nested(ns@, alias@);
                match first_nested(ns@, alias@) {
                    Some(k) => {
                        if k < i {
                        } else if k > i {
                        }
                    },
                    None => {},
                }
            }
            return Some(i);
        }
        i = i + 1;
    }
    proof {
        lemma_first_nested(ns@, alias@);
        match first_nested(ns@, alias@) {
            Some(k) => {
                assert(ns@[k].indicator.alias@ != alias@);
            },
            None => {},
        }
    }
    None
}

/// The index of the first indicator with an alias.
pub fn find_indicator(is: &[IndicatorInfo], alias: &String) -> (r: Option<usize>)
    ensures
        match r {
            Some(i) => first_indicator(is@, alias@) == Some(i as int) && i < is@.len(),
            None => first_indicator(is@, alias@) is None,
        },
{
    let mut i: usize = 0;
    while i < is.len()
        invariant
            i <= is@.len(),
            forall|j: int| 0 <= j < i ==> (#[trigger] is@[j]).alias@ != alias@,
        decreases is@.len() - i,
    {
        if is[i].alias == *alias {
            proof {
                lemma_first_indicator(is@, alias@);
                match first_indicator(is@, alias@) {
                    Some(k) => {
                        if k < i {
                        } else if k > i {
                        }
                    },
                    None => {},
                }
            }
            return Some(i);
        }
        i = i + 1;
    }
    proof {
        lemma_first_indicator(is@, alias@);
        match first_indicator(is@, alias@) {
            Some(k) => {
                assert(is@[k].alias@ != alias@);
            },
            None => {},
        }
    }
    None
}

/// The input indicator of the nested indicator with the alias `alias`: the
/// first indicator among `all` whose alias is the input alias of the first
/// nested indicator with that alias.
pub open spec fn input_of(ns: Seq<NestedIndicator>, all: Seq<IndicatorInfo>, alias: Seq<char>) -> Option<IndicatorInfo> {
    match first_nested(ns, alias) {
        Some(n) => match first_indicator(all, ns[n].input_indicator_alias@) {
            Some(k) => Some(all[k]),
            None => None,
        },
        None => None,
    }
}

pub(crate) fn input_of_exec<'a>(ns: &[NestedIndicator], all: &'a [IndicatorInfo], alias: &String) -> (r: Option<&'a IndicatorInfo>)
    ensures
        match r {
            Some(x) => input_of(ns@, all@, alias@) == Some(*x),
            None => input_of(ns@, all@, alias@) is None,
        },
{
    match find_nested(ns, alias) {
        Some(n) => match find_indicator(all, &ns[n].input_indicator_alias) {
            Some(k) => Some(&all[k]),
            None => None,
        },
        None => None,
    }
}

/// Whether two indicators may be compared in an indicator-indicator
/// condition: never two oscillator-like indicators, nor an oscillator-like
/// indicator built on a non-oscillator; an indicator built on an oscillator
/// only with that oscillator; an oscillator-like indicator only with an
/// indicator built on an oscillator; any two others.
pub open spec fn compare_allowed(
    reg: BuildRulesRegistry,
    primary: IndicatorInfo,
    secondary: IndicatorInfo,
    ns: Seq<NestedIndicator>,
    all: Seq<IndicatorInfo>,
) -> bool {
    let po = oscillator_like(reg, primary.name@);
    let so = oscillator_like(reg, secondary.name@);
    let pi = input_of(ns, all, primary.alias@);
    let si = input_of(ns, all, secondary.alias@);
    let p_on_osc = pi matches Some(x) && oscillator_like(reg, x.name@);
    let s_on_osc = si matches Some(x) && oscillator_like(reg, x.name@);
    let p_on_other = pi matches Some(x) && !oscillator_like(reg, x.name@);
    let s_on_other = si matches Some(x) && !oscillator_like(reg, x.name@);
    if po && so {
        false
    } else if po && p_on_other {
        false
    } else if so && s_on_other {
        false
    } else if p_on_osc {
        secondary.alias@ == pi->0.alias@
    } else if s_on_osc {
        primary.alias@ == si->0.alias@
    } else if po {
        s_on_osc
    } else if so {
        p_on_osc
    } else {
        true
    }
}

/// Whether two indicators may be compared in an indicator-indicator condition.
pub fn can_compare_indicators(
    registry: &BuildRulesRegistry,
    primary: &IndicatorInfo,
    secondary: &IndicatorInfo,
    nested_indicators: &[NestedIndicator],
    all_indicators: &[IndicatorInfo],
) -> (r: bool)
    ensures
        r == compare_allowed(*registry, *primary, *secondary, nested_indicators@, all_indicators@),
{
    let po = is_oscillator_like(registry, primary.name.as_str());
    let so = is_oscillator_like(registry, secondary.name.as_str());
    if po && so {
        return false;
    }
    let pi = input_of_exec(nested_indicators, all_indicators, &primary.alias);
    let si = input_of_exec(nested_indicators, all_indicators, &secondary.alias);
    let (p_on_osc, p_on_other) = match pi {
        Some(x) => {
            let o = is_oscillator_like(registry, x.name.as_str());
            (o, !o)
        },
        None => (false, false),
    };
    let (s_on_osc, s_on_other) = match si {
        Some(x) => {
            let o = is_oscillator_like(registry, x.name.as_str());
            (o, !o)
        },
        None => (false, false),
    };
    if po && p_on_other {
        return false;
    }
    if so && s_on_other {
        return false;
    }
    if p_on_osc {
        match pi {
            Some(x) => {
                return secondary.alias == x.alias;
            },
            None => {},
        }
    }
    if s_on_osc {
        match si {
            Some(x) => {
                return primary.alias == x.alias;
            },
            None => {},
        }
    }
    if po {
        return s_on_osc;
    }
    if so {
        return p_on_osc;
    }
    true
}

/// Some nested indicator takes `indicator` as its input.
pub open spec fn used_as_input(indicator: IndicatorInfo, ns: Seq<NestedIndicator>) -> bool {
    exists|i: int| 0 <= i < ns.len() && (#[trigger] ns[i]).input_indicator_alias@ == indicator.alias@
}

/// Whether some nested indicator takes `indicator` as its input.
pub fn is_oscillator_used_in_nested(indicator: &IndicatorInfo, nested_indicators: &[NestedIndicator]) -> (r: bool)
    ensures
        r == used_as_input(*indicator, nested_indicators@),
{
    let mut i: usize = 0;
    while i < nested_indicators.len()
        invariant
            i <= nested_indicators@.len(),
            forall|j: int| 0 <= j < i ==> (#[trigger] nested_indicators@[j]).input_indicator_alias@ != indicator.alias@,
        decreases nested_indicators@.len() - i,
    {
        if nested_indicators[i].input_indicator_alias == indicator.alias {
            assert(nested_indicators@[i as int].input_indicator_alias@ == indicator.alias@);
            return true;
        }
        i = i + 1;
    }
    false
}

/// The indicator is built on an indicator of the oscillator type: its input
/// (as `input_of` finds it) has the type "oscillator".
pub open spec fn built_on_oscillator_type(indicator: IndicatorInfo, ns: Seq<NestedIndicator>, all: Seq<IndicatorInfo>) -> bool {
    input_of(ns, all, indicator.alias@) matches Some(x) && x.indicator_type@ == oscillator_text()
}

/// Chooses operators and kinds of conditions.
pub struct OperatorSelectorFactory;

impl OperatorSelectorFactory {

/// Chooses the operator and the kind of condition for an indicator, from its
/// category and from how it is nested.
pub fn select_operator_and_condition_type(
    indicator: &IndicatorInfo,
    nested_indicators: &[NestedIndicator],
    all_indicators: &[IndicatorInfo],
    probabilities: &ConditionProbabilities,
    rng: &mut ThreadRng,
) -> (r: (ConditionOperator, ConditionKind))
    ensures
        condition_type_allowed(
            category_of(indicator.indicator_type@),
            used_as_input(*indicator, nested_indicators@),
            built_on_oscillator_type(*indicator, nested_indicators@, all_indicators@),
            *probabilities,
            r.1,
        ),
        operator_allowed(category_of(indicator.indicator_type@), kind_text(r.1), *probabilities, r.0),
{
    let used = is_oscillator_used_in_nested(indicator, nested_indicators);
    let built_on = match input_of_exec(nested_indicators, all_indicators, &indicator.alias) {
        Some(x) => {
            let osc: Vec<char> = vec!['o', 's', 'c', 'i', 'l', 'l', 'a', 't', 'o', 'r'];
            assert(osc@ =~= oscillator_text());
            text_is(x.indicator_type.as_str(), &osc)
        },
        None => false,
    };
    let category = category_from_str(indicator.indicator_type.as_str());
    let kind = select_condition_type(&category, used, built_on, probabilities, rng);
    let kind_s = kind_string(kind);
    let operator = select_operator(&category, kind_s.as_str(), probabilities, rng);
    (operator, kind)
}

}

/// A weighted choice among the price, indicator-indicator and trend kinds:
/// a kind of weight zero is never chosen, unless all weights are zero, and
/// then the price kind is.
pub open spec fn weighted_kind_allowed(p: ConditionProbabilities, k: ConditionKind) -> bool {
    let total = p.use_indicator_price_condition + p.use_indicator_indicator_condition + p.use_trend_condition;
    if total == 0 {
        k == ConditionKind::IndicatorPrice
    } else {
        match k {
            ConditionKind::IndicatorPrice => p.use_indicator_price_condition > 0,
            ConditionKind::IndicatorIndicator => p.use_indicator_indicator_condition > 0,
            ConditionKind::TrendCondition => p.use_trend_condition > 0,
            ConditionKind::IndicatorConstant => false,
        }
    }
}

/// Chooses a kind of condition with probabilities proportional to the
/// weights of the price, indicator-indicator and trend kinds.
pub fn weighted_condition_type_choice(probabilities: &ConditionProbabilities, rng: &mut ThreadRng) -> (r: ConditionKind)
    ensures
        weighted_kind_allowed(*probabilities, r),
{
    let w_price = probabilities.use_indicator_price_condition as u64;
    let w_indicator = probabilities.use_indicator_indicator_condition as u64;
    let w_trend = probabilities.use_trend_condition as u64;
    let total = w_price + w_indicator + w_trend;
    if total == 0 {
        return ConditionKind::IndicatorPrice;
    }
    let random = random_below_u64(rng, total);
    if random < w_price {
        ConditionKind::IndicatorPrice
    } else if random < w_price + w_indicator {
        ConditionKind::IndicatorIndicator
    } else {
        ConditionKind::TrendCondition
    }
}

/// A weighted choice for an oscillator-based indicator between the
/// indicator-indicator and trend kinds: a kind of weight zero is never
/// chosen, unless both weights are zero, and then the indicator-indicator
/// kind is.
pub open spec fn weighted_oscillator_kind_allowed(p: ConditionProbabilities, k: ConditionKind) -> bool {
    let total = p.use_indicator_indicator_condition + p.use_trend_condition;
    if total == 0 {
        k == ConditionKind::IndicatorIndicator
    } else {
        match k {
            ConditionKind::IndicatorIndicator => p.use_indicator_indicator_condition > 0,
            ConditionKind::TrendCondition => p.use_trend_condition > 0,
            _ => false,
        }
    }
}

/// Chooses, for an oscillator-based indicator, between an indicator-indicator
/// and a trend condition, with probabilities proportional to their weights.
pub fn weighted_choice_for_oscillator_based(probabilities: &ConditionProbabilities, rng: &mut ThreadRng) -> (r: ConditionKind)
    ensures
        weighted_oscillator_kind_allowed(*probabilities, r),
{
    let w_indicator = probabilities.use_indicator_indicator_condition as u64;
    let w_trend = probabilities.use_trend_condition as u64;
    let total = w_indicator + w_trend;
    if total == 0 {
        return ConditionKind::IndicatorIndicator;
    }
    let random = random_below_u64(rng, total);
    if random < w_indicator {
        ConditionKind::IndicatorIndicator
    } else {
        ConditionKind::TrendCondition
    }
}


/// The name is one of the trend indicators used when none is offered.
pub open spec fn default_trend_name(n: Seq<char>) -> bool {
    n == seq!['S', 'M', 'A'] || n == seq!['E', 'M', 'A'] || n == seq!['W', 'M', 'A'] || n == seq!['A', 'M', 'A']
        || n == seq!['Z', 'L', 'E', 'M', 'A']
}

/// Some indicator offered has the trend type.
pub open spec fn has_trend_indicator(all: Seq<IndicatorInfo>) -> bool {
    exists|i: int| 0 <= i < all.len() && (#[trigger] all[i]).indicator_type@ == trend_text()
}

/// The name may be picked as a trend indicator: the name of an offered trend
/// indicator, or, when none is offered, one of the defaults.
pub open spec fn trend_pick(all: Seq<IndicatorInfo>, n: Seq<char>) -> bool {
    if has_trend_indicator(all) {
        exists|i: int| 0 <= i < all.len() && (#[trigger] all[i]).indicator_type@ == trend_text() && all[i].name@ == n
    } else {
        default_trend_name(n)
    }
}

/// Picks at random the name of an offered trend indicator, or, when none is
/// offered, one of SMA, EMA, WMA, AMA and ZLEMA.
pub fn select_random_trend_indicator(available_indicators: &[IndicatorInfo], rng: &mut ThreadRng) -> (r: Option<String>)
    ensures
        r matches Some(n) && trend_pick(available_indicators@, n@),
{
    let tr: Vec<char> = vec!['t', 'r', 'e', 'n', 'd'];
    assert(tr@ =~= trend_text());
    let mut trend: Vec<usize> = Vec::new();
    let mut i: usize = 0;
    while i < available_indicators.len()
        invariant
            i <= available_indicators@.len(),
            tr@ == trend_text(),
            forall|k: int| 0 <= k < trend@.len() ==> (#[trigger] trend@[k]) < available_indicators@.len()
                && available_indicators@[trend@[k] as int].indicator_type@ == trend_text(),
            forall|j: int| 0 <= j < i && (#[trigger] available_indicators@[j]).indicator_type@ == trend_text()
                ==> trend@.len() > 0,
        decreases available_indicators@.len() - i,
    {
        if text_is(available_indicators[i].indicator_type.as_str(), &tr) {
            trend.push(i);
        }
        i = i + 1;
    }
    if trend.len() == 0 {
        proof {
            reveal_strlit("SMA");
            reveal_strlit("EMA");
            reveal_strlit("WMA");
            reveal_strlit("AMA");
            reveal_strlit("ZLEMA");
        }
        let k = random_below(rng, 5);
        let name = if k == 0 {
            let n = owned("SMA");
            assert(n@ =~= seq!['S', 'M', 'A']);
            n
        } else if k == 1 {
            let n = owned("EMA");
            assert(n@ =~= seq!['E', 'M', 'A']);
            n
        } else if k == 2 {
            let n = owned("WMA");
            assert(n@ =~= seq!['W', 'M', 'A']);
            n
        } else if k == 3 {
            let n = owned("AMA");
            assert(n@ =~= seq!['A', 'M', 'A']);
            n
        } else {
            let n = owned("ZLEMA");
            assert(n@ =~= seq!['Z', 'L', 'E', 'M', 'A']);
            n
        };
        Some(name)
    } else {
        let k = random_below(rng, trend.len());
        let idx = trend[k];
        assert(available_indicators@[idx as int].indicator_type@ == trend_text());
        Some(available_indicators[idx].name.clone())
    }
}

/// The stop handler `name` is excluded by the list.
pub open spec fn excluded_name(excluded: Seq<String>, name: Seq<char>) -> bool {
    exists|j: int| 0 <= j < excluded.len() && (#[trigger] excluded[j])@ == name
}

/// A configuration that may serve as the required stop handler: a stop
/// loss whose handler is not excluded.
pub open spec fn eligible_stop(c: StopHandlerConfig, excluded: Seq<String>) -> bool {
    c.stop_type@ == stop_loss_text() && !excluded_name(excluded, c.handler_name@)
}

/// The handler names that take an indicator as a suffix.
pub open spec fn trail_indicator_handler(n: Seq<char>) -> bool {
    n == seq!['A', 'T', 'R', 'T', 'r', 'a', 'i', 'l', 'I', 'n', 'd', 'i', 'c', 'a', 't', 'o', 'r', 'S', 't', 'o', 'p']
        || n == seq![
        'P',
        'e',
        'r',
        'c',
        'e',
        'n',
        't',
        'T',
        'r',
        'a',
        'i',
        'l',
        'I',
        'n',
        'd',
        'i',
        'c',
        'a',
        't',
        'o',
        'r',
        'S',
        't',
        'o',
        'p',
    ]
}

/// A stop handler made from the configuration `c`: a random identifier after
/// "stop_", the configuration's stop type, parameters and priority, and its
/// handler name, followed by a colon and a trend indicator for the handlers
/// that take one.
pub open spec fn stop_handler_from(
    h: StopHandlerInfo,
    c: StopHandlerConfig,
    all: Seq<StopHandlerConfig>,
    indicators: Seq<IndicatorInfo>,
) -> bool {
    &&& exists|r: u32| h.id@ == crate::rules::stop_head() + decimal(r as nat)
    &&& h.name@ == h.handler_name@
    &&& h.stop_type@ == c.stop_type@
    &&& h.optimization_params@ == handler_params(c, all)
    &&& h.priority == c.priority
    &&& if trail_indicator_handler(c.handler_name@) {
        exists|t: Seq<char>| trend_pick(indicators, t) && h.handler_name@ == c.handler_name@ + seq![':'] + t
    } else {
        h.handler_name@ == c.handler_name@
    }
}

fn is_excluded(excluded: &Vec<String>, name: &String) -> (r: bool)
    ensures
        r == excluded_name(excluded@, name@),
{
    let mut j: usize = 0;
    while j < excluded.len()
        invariant
            j <= excluded@.len(),
            forall|k: int| 0 <= k < j ==> (#[trigger] excluded@[k])@ != name@,
        decreases excluded@.len() - j,
    {
        if excluded[j] == *name {
            assert(excluded@[j as int]@ == name@);
            return true;
        }
        j = j + 1;
    }
    false
}

/// Picks at random a stop-loss handler that the rules do not exclude, or
/// none when there is no such handler.
pub fn select_single_stop_handler_required(
    available: &[StopHandlerConfig],
    available_indicators: &[IndicatorInfo],
    config: &CandidateBuilderConfig,
    rng: &mut ThreadRng,
) -> (r: Option<StopHandlerInfo>)
    ensures
        r is None <==> !exists|i: int|
            0 <= i < available@.len() && eligible_stop(#[trigger] available@[i], config.rules.excluded_stop_handlers@),
        r matches Some(h) ==> exists|i: int|
            0 <= i < available@.len() && eligible_stop(#[trigger] available@[i], config.rules.excluded_stop_handlers@)
                && stop_handler_from(h, available@[i], available@, available_indicators@),
{
    let sl: Vec<char> = vec!['s', 't', 'o', 'p', '_', 'l', 'o', 's', 's'];
    assert(sl@ =~= stop_loss_text());
    let ghost ex = config.rules.excluded_stop_handlers@;
    let mut eligible: Vec<usize> = Vec::new();
    let mut i: usize = 0;
    while i < available.len()
        invariant
            i <= available@.len(),
            sl@ == stop_loss_text(),
            ex == config.rules.excluded_stop_handlers@,
            forall|k: int| 0 <= k < eligible@.len() ==> (#[trigger] eligible@[k]) < available@.len()
                && eligible_stop(available@[eligible@[k] as int], ex),
            forall|j: int| 0 <= j < i && eligible_stop(#[trigger] available@[j], ex) ==> eligible@.len() > 0,
        decreases available@.len() - i,
    {
        if text_is(available[i].stop_type.as_str(), &sl) && !is_excluded(
            &config.rules.excluded_stop_handlers,
            &available[i].handler_name,
        ) {
            eligible.push(i);
        }
        i = i + 1;
    }
    if eligible.len() == 0 {
        return None;
    }
    let k = random_below(rng, eligible.len());
    let idx = eligible[k];
    let item = &available[idx];
    assert(eligible_stop(available@[idx as int], ex));
    let atr: Vec<char> = vec![
        'A', 'T', 'R', 'T', 'r', 'a', 'i', 'l', 'I', 'n', 'd', 'i', 'c', 'a', 't', 'o', 'r', 'S', 't', 'o', 'p',
    ];
    let pct: Vec<char> = vec![
        'P', 'e', 'r', 'c', 'e', 'n', 't', 'T', 'r', 'a', 'i', 'l', 'I', 'n', 'd', 'i', 'c', 'a', 't', 'o', 'r',
        'S', 't', 'o', 'p',
    ];
    let ghost trail = trail_indicator_handler(item.handler_name@);
    let mut handler_name = item.handler_name.clone();
    if text_is(item.handler_name.as_str(), &atr) || text_is(item.handler_name.as_str(), &pct) {
        assert(trail);
        match select_random_trend_indicator(available_indicators, rng) {
            Some(indicator_name) => {
                proof {
                    reveal_strlit(":");
                }
                handler_name.append(":");
                handler_name.append(indicator_name.as_str());
                assert(handler_name@ =~= item.handler_name@ + seq![':'] + indicator_name@);
            },
            None => {},
        }
    } else {
        assert(atr@ =~= seq!['A', 'T', 'R', 'T', 'r', 'a', 'i', 'l', 'I', 'n', 'd', 'i', 'c', 'a', 't', 'o', 'r', 'S', 't', 'o', 'p']);
        assert(!trail);
    }
    proof {
        reveal_strlit("stop_");
    }
    let random = random_u32(rng);
    let mut id = owned("stop_");
    push_decimal(&mut id, random as u64);
    assert(id@ =~= crate::rules::stop_head() + decimal(random as nat));
    Some(
        StopHandlerInfo {
            id,
            name: handler_name.clone(),
            handler_name,
            stop_type: item.stop_type.clone(),
            optimization_params: make_handler_params(item, available),
            priority: item.priority,
        },
    )
}

/// A take handler made from the configuration `c`: a random identifier
/// after "take_", the configuration's handler name as its name and handler
/// name, its stop type, parameters and priority.
pub open spec fn take_handler_from(h: StopHandlerInfo, c: StopHandlerConfig, all: Seq<StopHandlerConfig>) -> bool {
    &&& exists|r: u32| h.id@ == take_head() + decimal(r as nat)
    &&& h.name@ == c.handler_name@
    &&& h.handler_name@ == c.handler_name@
    &&& h.stop_type@ == c.stop_type@
    &&& h.optimization_params@ == handler_params(c, all)
    &&& h.priority == c.priority
}

/// The builder of stop and take handlers; its steps take the configuration
/// and the random generator as arguments.
pub struct StopHandlerBuilder;

impl StopHandlerBuilder {
    /// Picks at random a stop-loss handler that the rules do not exclude,
    /// as `select_single_stop_handler_required` does.
    pub fn select_stop_handler(
        config: &CandidateBuilderConfig,
        rng: &mut ThreadRng,
        available: &[StopHandlerConfig],
        available_indicators: &[IndicatorInfo],
    ) -> (r: Option<StopHandlerInfo>)
        ensures
            r is None <==> !exists|i: int|
                0 <= i < available@.len() && eligible_stop(#[trigger] available@[i], config.rules.excluded_stop_handlers@),
            r matches Some(h) ==> exists|i: int|
                0 <= i < available@.len() && eligible_stop(#[trigger] available@[i], config.rules.excluded_stop_handlers@)
                    && stop_handler_from(h, available@[i], available@, available_indicators@),
    {
        select_single_stop_handler_required(available, available_indicators, config, rng)
    }

    /// Picks at random a take-profit handler among the configurations, or
    /// none when there is no take-profit configuration.
    pub fn select_take_handler(rng: &mut ThreadRng, available: &[StopHandlerConfig]) -> (r: Option<StopHandlerInfo>)
        ensures
            r is None <==> !exists|i: int| 0 <= i < available@.len() && (#[trigger] available@[i]).stop_type@ == take_profit_text(),
            r matches Some(h) ==> exists|i: int|
                0 <= i < available@.len() && (#[trigger] available@[i]).stop_type@ == take_profit_text()
                    && take_handler_from(h, available@[i], available@),
    {
        pick_take_handler(available, rng)
    }
}

/// Picks at random a take-profit handler among the configurations, or none
/// when there is no take-profit configuration.
fn pick_take_handler(available: &[StopHandlerConfig], rng: &mut ThreadRng) -> (r: Option<StopHandlerInfo>)
    ensures
        r is None <==> !exists|i: int| 0 <= i < available@.len() && (#[trigger] available@[i]).stop_type@ == take_profit_text(),
        r matches Some(h) ==> exists|i: int|
            0 <= i < available@.len() && (#[trigger] available@[i]).stop_type@ == take_profit_text()
                && take_handler_from(h, available@[i], available@),
{
    let tp: Vec<char> = vec!['t', 'a', 'k', 'e', '_', 'p', 'r', 'o', 'f', 'i', 't'];
    assert(tp@ =~= take_profit_text());
    let mut takes: Vec<usize> = Vec::new();
    let mut i: usize = 0;
    while i < available.len()
        invariant
            i <= available@.len(),
            tp@ == take_profit_text(),
            forall|k: int| 0 <= k < takes@.len() ==> (#[trigger] takes@[k]) < available@.len()
                && available@[takes@[k] as int].stop_type@ == take_profit_text(),
            forall|j: int| 0 <= j < i && (#[trigger] available@[j]).stop_type@ == take_profit_text() ==> takes@.len() > 0,
        decreases available@.len() - i,
    {
        if text_is(available[i].stop_type.as_str(), &tp) {
            takes.push(i);
        }
        i = i + 1;
    }
    if takes.len() == 0 {
        return None;
    }
    let idx = takes[random_below(rng, takes.len())];
    let item = &available[idx];
    proof {
        reveal_strlit("take_");
    }
    let random = random_u32(rng);
    let mut id = owned("take_");
    push_decimal(&mut id, random as u64);
    assert(id@ =~= take_head() + decimal(random as nat));
    Some(
        StopHandlerInfo {
            id,
            name: item.handler_name.clone(),
            handler_name: item.handler_name.clone(),
            stop_type: item.stop_type.clone(),
            optimization_params: make_handler_params(item, available),
            priority: item.priority,
        },
    )
}

/// A price condition built for an indicator: a random above or below
/// operator, an identifier of the entry or exit prefix, the alias and a
/// random number, the name "{indicator} {operator} target", the given
/// timeframe, and a price field from the configuration (the only one, one of
/// several, or "Close" when none is listed).
pub open spec fn price_condition_for(
    c: ConditionInfo,
    indicator: IndicatorInfo,
    is_entry: bool,
    timeframe: Option<TimeFrame>,
    price_fields: Seq<String>,
) -> bool {
    &&& c.operator == ConditionOperator::Above || c.operator == ConditionOperator::Below
    &&& exists|n: u32|
        c.id@ == crate::condition_id::prefix_text(
            if is_entry {
                crate::condition_id::ConditionPrefix::Entry
            } else {
                crate::condition_id::ConditionPrefix::Exit
            },
        ) + seq!['_'] + indicator.alias@ + seq!['_'] + decimal(n as nat)
    &&& c.name@ == indicator.name@ + seq![' '] + operator_name(c.operator) + seq![' ', 't', 'a', 'r', 'g', 'e', 't']
    &&& c.condition_type@ == indicator_price_text()
    &&& c.constant_value is None
    &&& c.primary_indicator_alias@ == indicator.alias@
    &&& c.secondary_indicator_alias is None
    &&& c.primary_timeframe == timeframe
    &&& c.secondary_timeframe is None
    &&& c.price_field matches Some(pf) && if price_fields.len() == 0 {
        pf@ == close_text()
    } else if price_fields.len() == 1 {
        pf@ == price_fields[0]@
    } else {
        exists|i: int| 0 <= i < price_fields.len() && pf@ == (#[trigger] price_fields[i])@
    }
}

/// Builds a price condition for an indicator, on the given timeframe.
pub fn build_condition_with_timeframe(
    indicator: &IndicatorInfo,
    is_entry: bool,
    timeframe: Option<TimeFrame>,
    config: &CandidateBuilderConfig,
    rng: &mut ThreadRng,
) -> (r: Option<ConditionInfo>)
    ensures
        r matches Some(c) && price_condition_for(c, *indicator, is_entry, timeframe, config.condition_config.price_fields@),
{
    let operator = if random_ratio(rng, 1, 2) {
        ConditionOperator::Above
    } else {
        ConditionOperator::Below
    };
    let prefix = crate::condition_id::ConditionId::prefix_for(is_entry);
    let random = random_u32(rng);
    let id = crate::condition_id::ConditionId::indicator_price(prefix, indicator.alias.as_str(), random);
    proof {
        reveal_strlit(" ");
        reveal_strlit(" target");
        reveal_strlit("Close");
    }
    let mut name = indicator.name.clone();
    name.append(" ");
    name.append(operator.name());
    name.append(" target");
    assert(name@ =~= indicator.name@ + seq![' '] + operator_name(operator) + seq![' ', 't', 'a', 'r', 'g', 'e', 't']);
    let fields = &config.condition_config.price_fields;
    let price_field = if fields.len() == 1 {
        fields[0].clone()
    } else if fields.len() == 0 {
        owned("Close")
    } else {
        let k = random_below(rng, fields.len());
        fields[k].clone()
    };
    assert(price_field@ == close_text() || fields.len() != 0);
    Some(
        ConditionInfo {
            id,
            name,
            operator,
            condition_type: kind_string(ConditionKind::IndicatorPrice),
            constant_value: None,
            primary_indicator_alias: indicator.alias.clone(),
            secondary_indicator_alias: None,
            primary_timeframe: timeframe,
            secondary_timeframe: None,
            price_field: Some(price_field),
        },
    )
}

/// The probability, in millionths, of choosing an indicator of a type.
pub open spec fn type_weight(p: IndicatorProbabilities, t: Seq<char>) -> u32 {
    if t == trend_text() {
        p.add_trend_indicator
    } else if t == oscillator_text() {
        p.add_oscillator_indicator
    } else if t == volume_text() {
        p.add_volume_indicator
    } else if t == volatility_text() {
        p.add_volatility_indicator
    } else if t == channel_text() {
        p.add_channel_indicator
    } else {
        p.add_base_indicator
    }
}

fn type_weight_exec(p: &IndicatorProbabilities, t: &str) -> (r: u32)
    ensures
        r == type_weight(*p, t@),
{
    let c = chars_of(t);
    let tr: Vec<char> = vec!['t', 'r', 'e', 'n', 'd'];
    let osc: Vec<char> = vec!['o', 's', 'c', 'i', 'l', 'l', 'a', 't', 'o', 'r'];
    let vm: Vec<char> = vec!['v', 'o', 'l', 'u', 'm', 'e'];
    let vol: Vec<char> = vec!['v', 'o', 'l', 'a', 't', 'i', 'l', 'i', 't', 'y'];
    let ch: Vec<char> = vec!['c', 'h', 'a', 'n', 'n', 'e', 'l'];
    assert(tr@ =~= trend_text());
    assert(osc@ =~= oscillator_text());
    assert(vm@ =~= volume_text());
    assert(vol@ =~= volatility_text());
    assert(ch@ =~= channel_text());
    if crate::text::chars_eq(&c, &tr) {
        p.add_trend_indicator
    } else if crate::text::chars_eq(&c, &osc) {
        p.add_oscillator_indicator
    } else if crate::text::chars_eq(&c, &vm) {
        p.add_volume_indicator
    } else if crate::text::chars_eq(&c, &vol) {
        p.add_volatility_indicator
    } else if crate::text::chars_eq(&c, &ch) {
        p.add_channel_indicator
    } else {
        p.add_base_indicator
    }
}

/// An indicator may be chosen: its alias is not excluded, its name is not
/// among the excluded indicators, and in the first phase it is allowed there.
pub open spec fn indicator_choosable(
    reg: BuildRulesRegistry,
    ind: IndicatorInfo,
    exclude_aliases: Seq<String>,
    excluded_names: Seq<String>,
    is_phase_1: bool,
) -> bool {
    &&& !excluded_name(exclude_aliases, ind.alias@)
    &&& !excluded_name(excluded_names, ind.name@)
    &&& is_phase_1 ==> match crate::build_rules::lookup_rules(reg, ind.name@) {
        Some(rules) => rules.phase_1_allowed,
        None => true,
    }
}

/// The positions of the indicators that may be chosen and whose coin (at
/// the same position) came up, in order.
pub open spec fn kept_positions(
    reg: BuildRulesRegistry,
    available: Seq<IndicatorInfo>,
    exclude_aliases: Seq<String>,
    excluded_names: Seq<String>,
    is_phase_1: bool,
    coins: Seq<bool>,
) -> Seq<int>
    decreases available.len(),
{
    if available.len() == 0 {
        Seq::empty()
    } else {
        let n = available.len() - 1;
        let p = kept_positions(reg, available.drop_last(), exclude_aliases, excluded_names, is_phase_1, coins);
        if n < coins.len() && coins[n] && indicator_choosable(reg, available.last(), exclude_aliases, excluded_names, is_phase_1) {
            p.push(n)
        } else {
            p
        }
    }
}

proof fn lemma_kept_positions(
    reg: BuildRulesRegistry,
    available: Seq<IndicatorInfo>,
    exclude_aliases: Seq<String>,
    excluded_names: Seq<String>,
    is_phase_1: bool,
    coins: Seq<bool>,
)
    ensures
        forall|k: int|
            0 <= k < kept_positions(reg, available, exclude_aliases, excluded_names, is_phase_1, coins).len() ==> {
                let j = #[trigger] kept_positions(reg, available, exclude_aliases, excluded_names, is_phase_1, coins)[k];
                &&& 0 <= j < available.len()
                &&& j < coins.len() && coins[j]
                &&& indicator_choosable(reg, available[j], exclude_aliases, excluded_names, is_phase_1)
            },
        (exists|j: int|
            0 <= j < available.len() && j < coins.len() && coins[j] && indicator_choosable(
                reg,
                #[trigger] available[j],
                exclude_aliases,
                excluded_names,
                is_phase_1,
            )) ==> kept_positions(reg, available, exclude_aliases, excluded_names, is_phase_1, coins).len() > 0,
    decreases available.len(),
{
    if available.len() > 0 {
        let t = available.drop_last();
        lemma_kept_positions(reg, t, exclude_aliases, excluded_names, is_phase_1, coins);
        let kp = kept_positions(reg, available, exclude_aliases, excluded_names, is_phase_1, coins);
        let p = kept_positions(reg, t, exclude_aliases, excluded_names, is_phase_1, coins);
        assert forall|k: int| 0 <= k < kp.len() implies {
            let j = #[trigger] kp[k];
            &&& 0 <= j < available.len()
            &&& j < coins.len() && coins[j]
            &&& indicator_choosable(reg, available[j], exclude_aliases, excluded_names, is_phase_1)
        } by {
            if k < p.len() {
                assert(kp[k] == p[k]);
                assert(t[p[k]] == available[p[k]]);
            }
        }
        if exists|j: int|
            0 <= j < available.len() && j < coins.len() && coins[j] && indicator_choosable(
                reg,
                #[trigger] available[j],
                exclude_aliases,
                excluded_names,
                is_phase_1,
            ) {
            let j = choose|j: int|
                0 <= j < available.len() && j < coins.len() && coins[j] && indicator_choosable(
                    reg,
                    #[trigger] available[j],
                    exclude_aliases,
                    excluded_names,
                    is_phase_1,
                );
            if j < available.len() - 1 {
                assert(t[j] == available[j]);
            }
        }
    }
}

/// Picks at random one indicator among those that may be chosen, each first
/// kept with the probability of its type; none when none is kept.
pub fn select_single_indicator(
    registry: &BuildRulesRegistry,
    available: &[IndicatorInfo],
    probabilities: &IndicatorProbabilities,
    exclude_aliases: &Vec<String>,
    is_phase_1: bool,
    config: &CandidateBuilderConfig,
    rng: &mut ThreadRng,
) -> (r: Option<IndicatorInfo>)
    ensures
        r matches Some(x) ==> exists|i: int|
            0 <= i < available@.len() && #[trigger] available@[i] == x && indicator_choosable(
                *registry,
                x,
                exclude_aliases@,
                config.rules.excluded_indicators@,
                is_phase_1,
            ) && type_weight(*probabilities, x.indicator_type@) > 0,
        (forall|i: int|
            0 <= i < available@.len() ==> !indicator_choosable(
                *registry,
                #[trigger] available@[i],
                exclude_aliases@,
                config.rules.excluded_indicators@,
                is_phase_1,
            ) || type_weight(*probabilities, available@[i].indicator_type@) == 0) ==> r is None,
        (exists|i: int|
            0 <= i < available@.len() && indicator_choosable(
                *registry,
                #[trigger] available@[i],
                exclude_aliases@,
                config.rules.excluded_indicators@,
                is_phase_1,
            ) && certain(type_weight(*probabilities, available@[i].indicator_type@))) ==> r is Some,
{
    let ghost ex = config.rules.excluded_indicators@;
    let mut coins: Vec<bool> = Vec::new();
    let mut count: usize = 0;
    let mut i: usize = 0;
    while i < available.len()
        invariant
            i <= available@.len(),
            ex == config.rules.excluded_indicators@,
            coins@.len() == i,
            count <= i,
            count == kept_positions(*registry, available@.take(i as int), exclude_aliases@, ex, is_phase_1, coins@).len(),
            forall|k: int| 0 <= k < i && #[trigger] coins@[k] ==> type_weight(*probabilities, available@[k].indicator_type@) > 0,
            forall|k: int|
                0 <= k < i && indicator_choosable(*registry, #[trigger] available@[k], exclude_aliases@, ex, is_phase_1)
                    && certain(type_weight(*probabilities, available@[k].indicator_type@)) ==> coins@[k],
        decreases available@.len() - i,
    {
        let ghost before = coins@;
        let ind = &available[i];
        let choosable = !is_excluded(exclude_aliases, &ind.alias) && !is_excluded(&config.rules.excluded_indicators, &ind.name)
            && (!is_phase_1 || crate::build_rules::is_phase_1_allowed(registry, ind.name.as_str()));
        let coin = if choosable {
            let weight = type_weight_exec(probabilities, ind.indicator_type.as_str());
            should_add(weight, rng)
        } else {
            false
        };
        coins.push(coin);
        proof {
            lemma_kept_prefix(*registry, available@, exclude_aliases@, ex, is_phase_1, before, coin, i as int);
        }
        if coin {
            count = count + 1;
        }
        i = i + 1;
    }
    assert(available@.take(available@.len() as int) =~= available@);
    let pick = if count > 0 {
        random_below(rng, count)
    } else {
        0
    };
    let r = select_single_indicator_with_draws(registry, available, exclude_aliases, is_phase_1, config, &coins, pick);
    proof {
        lemma_kept_positions(*registry, available@, exclude_aliases@, ex, is_phase_1, coins@);
    }
    r
}

proof fn lemma_kept_prefix(
    reg: BuildRulesRegistry,
    available: Seq<IndicatorInfo>,
    exclude_aliases: Seq<String>,
    excluded_names: Seq<String>,
    is_phase_1: bool,
    before: Seq<bool>,
    coin: bool,
    i: int,
)
    requires
        0 <= i < available.len(),
        before.len() == i,
        coin ==> indicator_choosable(reg, available[i], exclude_aliases, excluded_names, is_phase_1),
    ensures
        kept_positions(reg, available.take(i + 1), exclude_aliases, excluded_names, is_phase_1, before.push(coin)).len()
            == kept_positions(reg, available.take(i), exclude_aliases, excluded_names, is_phase_1, before).len() + (if coin {
            1int
        } else {
            0int
        }),
{
    assert(available.take(i + 1).drop_last() =~= available.take(i));
    lemma_kept_coins_prefix(reg, available.take(i), exclude_aliases, excluded_names, is_phase_1, before, before.push(coin));
}

/// Positions count only the coins below the number of indicators.
proof fn lemma_kept_coins_prefix(
    reg: BuildRulesRegistry,
    available: Seq<IndicatorInfo>,
    exclude_aliases: Seq<String>,
    excluded_names: Seq<String>,
    is_phase_1: bool,
    a: Seq<bool>,
    b: Seq<bool>,
)
    requires
        a.len() >= available.len(),
        b.len() >= available.len(),
        forall|k: int| 0 <= k < available.len() ==> a[k] == b[k],
    ensures
        kept_positions(reg, available, exclude_aliases, excluded_names, is_phase_1, a) == kept_positions(
            reg,
            available,
            exclude_aliases,
            excluded_names,
            is_phase_1,
            b,
        ),
    decreases available.len(),
{
    if available.len() > 0 {
        lemma_kept_coins_prefix(reg, available.drop_last(), exclude_aliases, excluded_names, is_phase_1, a, b);
    }
}

/// The selection of one indicator for given draws: the indicators that may
/// be chosen and whose coin (at the same position) came up are kept, and the
/// one at `pick` (modulo their count) among them is chosen; none when none
/// is kept.
pub fn select_single_indicator_with_draws(
    registry: &BuildRulesRegistry,
    available: &[IndicatorInfo],
    exclude_aliases: &Vec<String>,
    is_phase_1: bool,
    config: &CandidateBuilderConfig,
    coins: &Vec<bool>,
    pick: usize,
) -> (r: Option<IndicatorInfo>)
    ensures
        ({
            let kept = kept_positions(
                *registry,
                available@,
                exclude_aliases@,
                config.rules.excluded_indicators@,
                is_phase_1,
                coins@,
            );
            if kept.len() == 0 {
                r is None
            } else {
                r == Some(available@[kept[(pick as nat % kept.len()) as int]])
            }
        }),
{
    let ghost ex = config.rules.excluded_indicators@;
    let mut kept: Vec<usize> = Vec::new();
    let mut i: usize = 0;
    while i < available.len()
        invariant
            i <= available@.len(),
            ex == config.rules.excluded_indicators@,
            kept@.len() == kept_positions(*registry, available@.take(i as int), exclude_aliases@, ex, is_phase_1, coins@).len(),
            forall|k: int|
                0 <= k < kept@.len() ==> #[trigger] kept@[k] as int == kept_positions(
                    *registry,
                    available@.take(i as int),
                    exclude_aliases@,
                    ex,
                    is_phase_1,
                    coins@,
                )[k],
        decreases available@.len() - i,
    {
        assert(available@.take(i + 1).drop_last() =~= available@.take(i as int));
        let ind = &available[i];
        if i < coins.len() && coins[i] && !is_excluded(exclude_aliases, &ind.alias) && !is_excluded(
            &config.rules.excluded_indicators,
            &ind.name,
        ) && (!is_phase_1 || crate::build_rules::is_phase_1_allowed(registry, ind.name.as_str())) {
            kept.push(i);
        }
        i = i + 1;
    }
    assert(available@.take(available@.len() as int) =~= available@);
    proof {
        lemma_kept_positions(*registry, available@, exclude_aliases@, ex, is_phase_1, coins@);
    }
    if kept.len() == 0 {
        return None;
    }
    let idx = kept[pick % kept.len()];
    Some(available[idx].clone())
}

/// An indicator that is not oscillator-like and is built on an
/// oscillator-like input may be compared with that input, and only with it
/// (unless the other indicator is itself oscillator-like and built on a
/// non-oscillator, which is never compared).
pub proof fn law_built_on_oscillator_compares_with_its_source(
    reg: BuildRulesRegistry,
    primary: IndicatorInfo,
    secondary: IndicatorInfo,
    ns: Seq<NestedIndicator>,
    all: Seq<IndicatorInfo>,
    x: IndicatorInfo,
)
    requires
        input_of(ns, all, primary.alias@) == Some(x),
        oscillator_like(reg, x.name@),
        !oscillator_like(reg, primary.name@),
        !(oscillator_like(reg, secondary.name@) && (match input_of(ns, all, secondary.alias@) {
            Some(y) => !oscillator_like(reg, y.name@),
            None => false,
        })),
    ensures
        compare_allowed(reg, primary, secondary, ns, all) <==> secondary.alias@ == x.alias@,
{
}

/// The other rules of comparison: two oscillator-like indicators are never
/// compared, nor an oscillator-like indicator built on a non-oscillator
/// (in either place); an oscillator-like indicator that is not built on
/// anything is compared, with an indicator that is not oscillator-like,
/// exactly when that one is built on an oscillator-like input with the
/// oscillator's alias; two indicators of which neither is oscillator-like
/// nor built on an oscillator-like input are always compared.
pub proof fn law_comparison_rules(
    reg: BuildRulesRegistry,
    primary: IndicatorInfo,
    secondary: IndicatorInfo,
    ns: Seq<NestedIndicator>,
    all: Seq<IndicatorInfo>,
)
    ensures
        oscillator_like(reg, primary.name@) && oscillator_like(reg, secondary.name@) ==> !compare_allowed(
            reg,
            primary,
            secondary,
            ns,
            all,
        ),
        oscillator_like(reg, primary.name@) && (match input_of(ns, all, primary.alias@) {
            Some(y) => !oscillator_like(reg, y.name@),
            None => false,
        }) ==> !compare_allowed(reg, primary, secondary, ns, all) && !compare_allowed(
            reg,
            secondary,
            primary,
            ns,
            all,
        ),
        oscillator_like(reg, primary.name@) && input_of(ns, all, primary.alias@) is None && !oscillator_like(
            reg,
            secondary.name@,
        ) ==> (compare_allowed(reg, primary, secondary, ns, all) <==> (match input_of(ns, all, secondary.alias@) {
            Some(y) => oscillator_like(reg, y.name@) && y.alias@ == primary.alias@,
            None => false,
        })),
        !oscillator_like(reg, primary.name@) && !oscillator_like(reg, secondary.name@) && !(match input_of(
            ns,
            all,
            primary.alias@,
        ) {
            Some(y) => oscillator_like(reg, y.name@),
            None => false,
        }) && !(match input_of(ns, all, secondary.alias@) {
            Some(y) => oscillator_like(reg, y.name@),
            None => false,
        }) ==> compare_allowed(reg, primary, secondary, ns, all),
{
}

} // verus!
