//! Building a simple condition for one indicator, on a timeframe: a trend
//! condition, a condition against a constant threshold, or one against a
//! price field. Constants, periods and percentages are held in thousandths.

use vstd::prelude::*;
use rand::rngs::ThreadRng;
use crate::build_rules::{has_absolute_threshold, has_percent_of_price_threshold, BuildRulesRegistry, ThresholdType};
use crate::builders::{
    all_indicators, bases, comparable_exec, comparable_positions, law_comparable_positions_exact, op_exec, op_on, shape_kind_exec,
    shape_kind_on, threshold_is,
};
use crate::condition_id::{prefix_text, sep_pat, trend_display, ConditionId, ConditionPrefix, TrendType};
use crate::config::CandidateBuilderConfig;
use crate::initial::{get_volatility_percentage_range, percent_range_from, PercentRange};
use crate::config::ConditionProbabilities;
use crate::model::{
    close_text, indicator_constant_text, indicator_price_text, kind_string, kind_text, operator_name, trend_condition_text,
    ConditionInfo, ConditionKind, ConditionOperator, IndicatorInfo, NestedIndicator, TimeFrame,
};
use crate::random::{certain, random_below, random_below_u64, random_ratio, random_u32, should_add};
use crate::selection::compare_allowed;
use crate::text::{
    chars_of, contains, contains_spec, decimal, find, find_spec, last_index_of, owned, push_decimal, rfind_char, starts_with,
    starts_with_spec, substring,
};

verus! {

/// What is drawn to build a simple condition.
pub struct SimpleConditionDraws {
    /// The operator: with a timeframe, its position (modulo 4) among Above,
    /// Below, RisingTrend and FallingTrend; without one, Above when even and
    /// Below when odd.
    pub operator_pick: u32,
    /// The period of a trend condition.
    pub period: u32,
    /// The number that ends the identifier.
    pub number: u32,
    /// The position of the constant among the allowed ones (modulo their
    /// count).
    pub constant_pick: u64,
    /// The position of the price field among the configured ones (modulo
    /// their count).
    pub price_pick: usize,
    /// Whether a price condition gets a percentage.
    pub percent: bool,
    /// The position of the percentage among 0.10 to 5.00 by hundredths
    /// (modulo their count).
    pub percent_pick: u64,
}

/// The operator of a simple condition for the draw.
pub open spec fn simple_operator(has_timeframe: bool, pick: u32) -> ConditionOperator {
    if has_timeframe {
        if pick % 4 == 0 {
            ConditionOperator::Above
        } else if pick % 4 == 1 {
            ConditionOperator::Below
        } else if pick % 4 == 2 {
            ConditionOperator::RisingTrend
        } else {
            ConditionOperator::FallingTrend
        }
    } else if pick % 2 == 0 {
        ConditionOperator::Above
    } else {
        ConditionOperator::Below
    }
}

/// The range, in tenths, of the constant that an indicator with an absolute
/// threshold is compared with: 70 to 90 (above) or 10 to 30 for RSI, 80 to
/// 95 or 5 to 20 for Stochastic, 0 to 100 otherwise.
pub open spec fn absolute_range(name: Seq<char>, op: ConditionOperator) -> (u64, u64) {
    if name == "RSI"@ {
        if op == ConditionOperator::Above {
            (700, 900)
        } else {
            (100, 300)
        }
    } else if name == "Stochastic"@ {
        if op == ConditionOperator::Above {
            (800, 950)
        } else {
            (50, 200)
        }
    } else {
        (0, 1000)
    }
}

/// A number of tenths written with one decimal.
pub open spec fn tenths_text(t: nat) -> Seq<char> {
    decimal(t / 10) + seq!['.'] + decimal(t % 10)
}

/// A number of hundredths written with two decimals.
pub open spec fn hundredths_text(h: nat) -> Seq<char> {
    decimal(h / 100) + seq!['.'] + (if h % 100 < 10 {
        seq!['0']
    } else {
        Seq::empty()
    }) + decimal(h % 100)
}

/// The percentages of the price allowed by default: 0.2% to 10% by 0.1%.
pub open spec fn default_percent_range() -> PercentRange {
    PercentRange { start: 200, end: 10_000, step: 100 }
}

/// The number of steps above the start of a range (none when the range is
/// empty or has no step).
pub open spec fn range_steps(r: PercentRange) -> nat {
    if r.step > 0 && r.end > r.start {
        ((r.end - r.start) / (r.step as int)) as nat
    } else {
        0
    }
}

/// The condition built for the indicator on the timeframe, for the draws:
/// - with a trend operator, a trend condition of the drawn period (as its
///   constant), named "{indicator} {trend} (period: {period})";
/// - otherwise, with the identifier of a price condition, for an indicator
///   with an absolute threshold, a constant condition against the drawn
///   constant of `absolute_range`, named with it to one decimal;
/// - for one with a threshold in percent of the price, a constant
///   condition against the drawn step of the rules' percentage range (or
///   the default one), named "... Close * {percent}%";
/// - for any other, a price condition on the configured price field (the
///   only one, the drawn one, or "Close"), named "... target", with a drawn
///   percentage from 0.10 to 5.00 (named "... target на {percent}%") when
///   the coin says so.
pub open spec fn simple_condition_on(
    reg: BuildRulesRegistry,
    indicator: IndicatorInfo,
    is_entry: bool,
    timeframe: Option<TimeFrame>,
    config: CandidateBuilderConfig,
    d: SimpleConditionDraws,
    c: ConditionInfo,
) -> bool {
    let op = simple_operator(timeframe is Some, d.operator_pick);
    let prefix = prefix_text(if is_entry { ConditionPrefix::Entry } else { ConditionPrefix::Exit });
    let head = indicator.name@ + seq![' '] + operator_name(op) + seq![' '];
    &&& c.operator == op
    &&& c.primary_indicator_alias@ == indicator.alias@
    &&& c.secondary_indicator_alias is None
    &&& c.primary_timeframe == timeframe
    &&& c.secondary_timeframe is None
    &&& if op == ConditionOperator::RisingTrend || op == ConditionOperator::FallingTrend {
        let t = if op == ConditionOperator::RisingTrend { TrendType::Rising } else { TrendType::Falling };
        &&& c.id@ == prefix + seq!['_'] + indicator.alias@ + seq!['_'] + crate::condition_id::trend_text(t) + seq!['_']
            + decimal(d.number as nat)
        &&& c.name@ == indicator.name@ + seq![' '] + trend_display(t) + " (period: "@ + decimal(d.period as nat) + ")"@
        &&& c.condition_type@ == trend_condition_text()
        &&& c.constant_value == Some((d.period * 1000) as u64)
        &&& c.price_field is None
    } else {
        &&& c.id@ == prefix + seq!['_'] + indicator.alias@ + seq!['_'] + decimal(d.number as nat)
        &&& if threshold_is(reg, indicator.name@, ThresholdType::Absolute) {
            let (lo, hi) = absolute_range(indicator.name@, op);
            let t = lo + (d.constant_pick as int) % (hi - lo + 1);
            &&& c.condition_type@ == indicator_constant_text()
            &&& c.constant_value == Some((t * 100) as u64)
            &&& c.name@ == head + tenths_text(t as nat)
            &&& c.price_field is None
        } else if threshold_is(reg, indicator.name@, ThresholdType::PercentOfPrice) {
            let r = match percent_range_from(config.rules.indicator_parameter_rules@, indicator, 0) {
                Some(r) => r,
                None => default_percent_range(),
            };
            let v = r.start + ((d.constant_pick as nat) % (range_steps(r) + 1)) * r.step;
            &&& c.condition_type@ == indicator_constant_text()
            &&& c.constant_value == Some(v as u64)
            &&& c.name@ == head + "Close * "@ + hundredths_text((v / 10) as nat) + "%"@
            &&& c.price_field is None
        } else {
            let fields = config.condition_config.price_fields@;
            let h = 10 + (d.percent_pick as nat) % 491;
            &&& c.condition_type@ == indicator_price_text()
            &&& c.price_field matches Some(pf) && pf@ == (if fields.len() == 0 {
                close_text()
            } else {
                fields[(d.price_pick as nat % fields.len()) as int]@
            })
            &&& if d.percent {
                &&& c.constant_value == Some((h * 10) as u64)
                &&& c.name@ == head + "target на "@ + hundredths_text(h as nat) + "%"@
            } else {
                &&& c.constant_value is None
                &&& c.name@ == head + "target"@
            }
        }
    }
}

/// Appends a number of tenths with one decimal.
fn push_tenths(s: &mut String, t: u64)
    ensures
        final(s)@ == old(s)@ + tenths_text(t as nat),
{
    proof {
        reveal_strlit(".");
    }
    push_decimal(s, t / 10);
    s.append(".");
    push_decimal(s, t % 10);
    assert(final(s)@ =~= old(s)@ + tenths_text(t as nat)) by {
        assert(old(s)@ + decimal((t / 10) as nat) + seq!['.'] + decimal((t % 10) as nat) =~= old(s)@ + tenths_text(t as nat));
    }
}

/// Appends a number of hundredths with two decimals.
fn push_hundredths(s: &mut String, h: u64)
    ensures
        final(s)@ == old(s)@ + hundredths_text(h as nat),
{
    proof {
        reveal_strlit(".");
        reveal_strlit("0");
    }
    let ghost s0 = s@;
    push_decimal(s, h / 100);
    s.append(".");
    if h % 100 < 10 {
        s.append("0");
    }
    push_decimal(s, h % 100);
    let ghost pad: Seq<char> = if h % 100 < 10 { seq!['0'] } else { Seq::empty() };
    assert(s@ =~= s0 + (decimal((h / 100) as nat) + seq!['.'] + pad + decimal((h % 100) as nat)));
}

/// Builds a simple condition for the indicator on the timeframe, for the
/// draws, as `simple_condition_on` says.
pub fn build_condition_simple_with_timeframe_with_draws(
    registry: &BuildRulesRegistry,
    indicator: &IndicatorInfo,
    is_entry: bool,
    timeframe: Option<TimeFrame>,
    config: &CandidateBuilderConfig,
    draws: &SimpleConditionDraws,
) -> (r: ConditionInfo)
    ensures
        simple_condition_on(*registry, *indicator, is_entry, timeframe, *config, *draws, r),
{
    proof {
        reveal_strlit(" ");
        reveal_strlit(" (period: ");
        reveal_strlit(")");
        reveal_strlit("Close * ");
        reveal_strlit("%");
        reveal_strlit("target на ");
        reveal_strlit("target");
        reveal_strlit("Close");
        reveal_strlit("RSI");
        reveal_strlit("Stochastic");
    }
    let op = simple_operator_exec(timeframe.is_some(), draws.operator_pick);
    let prefix = ConditionId::prefix_for(is_entry);
    if op == ConditionOperator::RisingTrend || op == ConditionOperator::FallingTrend {
        let t = if op == ConditionOperator::RisingTrend {
            TrendType::Rising
        } else {
            TrendType::Falling
        };
        let id = ConditionId::trend_condition(prefix, indicator.alias.as_str(), t, draws.number);
        let mut name = indicator.name.clone();
        name.append(" ");
        name.append(op.name());
        name.append(" (period: ");
        push_decimal(&mut name, draws.period as u64);
        name.append(")");
        assert(operator_name(op) == trend_display(t));
        assert(name@ =~= indicator.name@ + seq![' '] + trend_display(t) + " (period: "@ + decimal(draws.period as nat)
            + ")"@);
        let period: u64 = draws.period as u64 * 1000;
        return ConditionInfo {
            id,
            name,
            operator: op,
            condition_type: kind_string(ConditionKind::TrendCondition),
            constant_value: Some(period),
            primary_indicator_alias: indicator.alias.clone(),
            secondary_indicator_alias: None,
            primary_timeframe: timeframe,
            secondary_timeframe: None,
            price_field: None,
        };
    }
    let id = ConditionId::indicator_price(prefix, indicator.alias.as_str(), draws.number);
    let mut name = indicator.name.clone();
    name.append(" ");
    name.append(op.name());
    name.append(" ");
    let ghost head = indicator.name@ + seq![' '] + operator_name(op) + seq![' '];
    assert(name@ =~= head);
    if has_absolute_threshold(registry, indicator.name.as_str()) {
        let (lo, hi): (u64, u64) = if crate::text::same_text(indicator.name.as_str(), "RSI") {
            if op == ConditionOperator::Above {
                (700, 900)
            } else {
                (100, 300)
            }
        } else if crate::text::same_text(indicator.name.as_str(), "Stochastic") {
            if op == ConditionOperator::Above {
                (800, 950)
            } else {
                (50, 200)
            }
        } else {
            (0, 1000)
        };
        assert((lo, hi) == absolute_range(indicator.name@, op));
        let t = lo + draws.constant_pick % (hi - lo + 1);
        push_tenths(&mut name, t);
        assert(name@ =~= head + tenths_text(t as nat));
        ConditionInfo {
            id,
            name,
            operator: op,
            condition_type: kind_string(ConditionKind::IndicatorConstant),
            constant_value: Some(t * 100),
            primary_indicator_alias: indicator.alias.clone(),
            secondary_indicator_alias: None,
            primary_timeframe: timeframe,
            secondary_timeframe: None,
            price_field: None,
        }
    } else if has_percent_of_price_threshold(registry, indicator.name.as_str()) {
        let range = match get_volatility_percentage_range(config, indicator) {
            Some(r) => r,
            None => PercentRange { start: 200, end: 10_000, step: 100 },
        };
        let steps: u64 = if range.step > 0 && range.end > range.start {
            (range.end - range.start) / range.step
        } else {
            0
        };
        assert(steps == range_steps(range));
        let idx = if steps < u64::MAX {
            draws.constant_pick % (steps + 1)
        } else {
            draws.constant_pick
        };
        proof {
            assert(idx <= steps);
            if !(range.step > 0 && range.end > range.start) {
                assert(idx == 0);
                assert(idx * range.step == 0) by (nonlinear_arith)
                    requires
                        idx == 0,
                ;
            } else {
                assert(idx * range.step <= range.end - range.start) by (nonlinear_arith)
                    requires
                        idx <= steps,
                        steps == (range.end - range.start) / (range.step as int),
                        range.step > 0,
                        range.end > range.start,
                ;
            }
        }
        proof {
            if steps == u64::MAX {
                vstd::arithmetic::div_mod::lemma_small_mod(draws.constant_pick as nat, (range_steps(range) + 1) as nat);
            }
        }
        assert(idx as int == (draws.constant_pick as nat) % (range_steps(range) + 1));
        let v = range.start + idx * range.step;
        name.append("Close * ");
        push_hundredths(&mut name, v / 10);
        name.append("%");
        assert(name@ =~= head + "Close * "@ + hundredths_text((v / 10) as nat) + "%"@);
        ConditionInfo {
            id,
            name,
            operator: op,
            condition_type: kind_string(ConditionKind::IndicatorConstant),
            constant_value: Some(v),
            primary_indicator_alias: indicator.alias.clone(),
            secondary_indicator_alias: None,
            primary_timeframe: timeframe,
            secondary_timeframe: None,
            price_field: None,
        }
    } else {
        let fields = &config.condition_config.price_fields;
        let price_field = if fields.len() == 0 {
            let f = owned("Close");
            assert(f@ =~= close_text());
            f
        } else {
            let k = draws.price_pick % fields.len();
            let f = fields[k].clone();
            assert(f@ == fields@[k as int]@);
            f
        };
        let constant_value = if draws.percent {
            let h = 10 + draws.percent_pick % 491;
            name.append("target на ");
            push_hundredths(&mut name, h);
            name.append("%");
            assert(name@ =~= head + "target на "@ + hundredths_text(h as nat) + "%"@);
            Some(h * 10)
        } else {
            name.append("target");
            assert(name@ =~= head + "target"@);
            None
        };
        ConditionInfo {
            id,
            name,
            operator: op,
            condition_type: kind_string(ConditionKind::IndicatorPrice),
            constant_value,
            primary_indicator_alias: indicator.alias.clone(),
            secondary_indicator_alias: None,
            primary_timeframe: timeframe,
            secondary_timeframe: None,
            price_field: Some(price_field),
        }
    }
}

/// The operator of a simple condition for the draw, as `simple_operator`
/// says.
fn simple_operator_exec(has_timeframe: bool, pick: u32) -> (r: ConditionOperator)
    ensures
        r == simple_operator(has_timeframe, pick),
{
    if has_timeframe {
        let k = pick % 4;
        if k == 0 {
            ConditionOperator::Above
        } else if k == 1 {
            ConditionOperator::Below
        } else if k == 2 {
            ConditionOperator::RisingTrend
        } else {
            ConditionOperator::FallingTrend
        }
    } else if pick % 2 == 0 {
        ConditionOperator::Above
    } else {
        ConditionOperator::Below
    }
}

/// How many constants a simple condition may be drawn with: the tenths of
/// the absolute range, the steps of the percentage range (at most the
/// largest `u64`), or one.
fn constant_count(registry: &BuildRulesRegistry, indicator: &IndicatorInfo, op: ConditionOperator, config: &CandidateBuilderConfig) -> (r: u64)
    ensures
        r > 0,
{
    proof {
        reveal_strlit("RSI");
        reveal_strlit("Stochastic");
    }
    if has_absolute_threshold(registry, indicator.name.as_str()) {
        if crate::text::same_text(indicator.name.as_str(), "RSI") {
            201
        } else if crate::text::same_text(indicator.name.as_str(), "Stochastic") {
            151
        } else {
            1001
        }
    } else if has_percent_of_price_threshold(registry, indicator.name.as_str()) {
        let range = match get_volatility_percentage_range(config, indicator) {
            Some(r) => r,
            None => PercentRange { start: 200, end: 10_000, step: 100 },
        };
        let steps: u64 = if range.step > 0 && range.end > range.start {
            (range.end - range.start) / range.step
        } else {
            0
        };
        if steps < u64::MAX {
            steps + 1
        } else {
            steps
        }
    } else {
        1
    }
}

/// Builds a simple condition for the indicator on the timeframe at random:
/// an operator among Above, Below and (with a timeframe) the two trends; a
/// trend condition of a period from `min_period` to `max_period`; a
/// constant of the allowed range, by tenths (or by steps of the percentage
/// range); a price condition on one of the price fields, with a percentage
/// from 0.10 to 5.00 by hundredths with the probability of percent
/// conditions. The result is that of `simple_condition_on` for the draws.
pub fn build_condition_simple_with_timeframe(
    registry: &BuildRulesRegistry,
    indicator: &IndicatorInfo,
    is_entry: bool,
    timeframe: Option<TimeFrame>,
    config: &CandidateBuilderConfig,
    min_period: u32,
    max_period: u32,
    rng: &mut ThreadRng,
) -> (r: Option<ConditionInfo>)
    requires
        min_period <= max_period,
    ensures
        r matches Some(c) && exists|d: SimpleConditionDraws|
            min_period <= d.period <= max_period && #[trigger] simple_condition_on(
                *registry,
                *indicator,
                is_entry,
                timeframe,
                *config,
                d,
                c,
            ),
        config.probabilities.conditions.use_percent_condition == 0 ==> (r matches Some(c) && (c.condition_type@
            == indicator_price_text() ==> c.constant_value is None)),
        certain(config.probabilities.conditions.use_percent_condition) ==> (r matches Some(c) && (c.condition_type@
            == indicator_price_text() ==> c.constant_value is Some)),
{
    let operator_pick: u32 = if timeframe.is_some() {
        random_below(rng, 4) as u32
    } else {
        random_below(rng, 2) as u32
    };
    let span: u64 = max_period as u64 - min_period as u64 + 1;
    let period = (min_period as u64 + random_below_u64(rng, span)) as u32;
    let number = random_u32(rng);
    let op = simple_operator_exec(timeframe.is_some(), operator_pick);
    let count = constant_count(registry, indicator, op, config);
    let constant_pick = random_below_u64(rng, count);
    let fields = config.condition_config.price_fields.len();
    let price_pick = if fields > 1 {
        random_below(rng, fields)
    } else {
        0
    };
    let percent = should_add(config.probabilities.conditions.use_percent_condition, rng);
    let percent_pick = random_below_u64(rng, 491);
    let draws = SimpleConditionDraws { operator_pick, period, number, constant_pick, price_pick, percent, percent_pick };
    let c = build_condition_simple_with_timeframe_with_draws(registry, indicator, is_entry, timeframe, config, &draws);
    Some(c)
}


/// What is drawn to build a condition on a candidate's indicators.
pub struct ConditionDraws {
    /// The position of the primary indicator among the candidate's plain
    /// then nested indicators (modulo their count).
    pub primary_pick: usize,
    /// The draw of the weighted choice of a kind.
    pub kind_draw: u64,
    /// The draw of the trend-or-price choice that replaces an
    /// indicator-indicator kind without a comparable indicator.
    pub fallback_draw: u64,
    /// The position of the operator among the admitted ones of its sort.
    pub operator_pick: usize,
    /// The rising (or above) operator, when none is admitted.
    pub operator_coin: bool,
    /// The position of the second indicator among the comparable ones.
    pub secondary_pick: usize,
    /// The position of the constant among the allowed ones.
    pub constant_pick: u64,
    /// The period named by a trend condition.
    pub period: u32,
    /// The number that ends the identifier.
    pub number: u32,
    /// The position of the price field of a price condition.
    pub price_pick: usize,
    /// The position of the price field of a condition that became a price
    /// condition for want of a second indicator.
    pub second_price_pick: usize,
    /// Whether a price or indicator-indicator condition gets a percentage.
    pub percent: bool,
    /// The position of the percentage among 0.10 to 5.00 by hundredths.
    pub percent_pick: u64,
}

/// The character is white space (Unicode White_Space), as splitting into
/// words takes it.
pub open spec fn white_space(c: char) -> bool {
    let n = c as u32;
    (9 <= n <= 13) || n == 32 || n == 0x85 || n == 0xa0 || n == 0x1680 || (0x2000 <= n <= 0x200a) || n == 0x2028
        || n == 0x2029 || n == 0x202f || n == 0x205f || n == 0x3000
}

/// The text holds a word: a character that is not white space.
pub open spec fn has_word(s: Seq<char>) -> bool {
    exists|i: int| 0 <= i < s.len() && !white_space(#[trigger] s[i])
}

fn is_white_space(c: char) -> (r: bool)
    ensures
        r == white_space(c),
{
    let n = c as u32;
    (9 <= n && n <= 13) || n == 32 || n == 0x85 || n == 0xa0 || n == 0x1680 || (0x2000 <= n && n <= 0x200a) || n
        == 0x2028 || n == 0x2029 || n == 0x202f || n == 0x205f || n == 0x3000
}

fn has_word_exec(s: &str) -> (r: bool)
    ensures
        r == has_word(s@),
{
    let c = chars_of(s);
    let mut i: usize = 0;
    while i < c.len()
        invariant
            i <= c@.len(),
            c@ == s@,
            forall|k: int| 0 <= k < i ==> white_space(#[trigger] c@[k]),
        decreases c@.len() - i,
    {
        if !is_white_space(c[i]) {
            return true;
        }
        i = i + 1;
    }
    false
}

/// The price field at `pick` (modulo their count) among the configured
/// ones, "Close" when none is configured.
pub open spec fn field_at(fields: Seq<String>, pick: usize) -> Seq<char> {
    if fields.len() == 0 {
        close_text()
    } else {
        fields[(pick as nat % fields.len()) as int]@
    }
}

fn field_at_exec(fields: &Vec<String>, pick: usize) -> (r: String)
    ensures
        r@ == field_at(fields@, pick),
{
    proof {
        reveal_strlit("Close");
    }
    if fields.len() == 0 {
        let f = owned("Close");
        assert(f@ =~= close_text());
        f
    } else {
        let k = pick % fields.len();
        let f = fields[k].clone();
        assert(f@ == fields@[k as int]@);
        f
    }
}

/// The aliases read back from an indicator-indicator identifier: after the
/// "entry_" or "exit_" prefix, up to the first "::", and after it up to the
/// last underscore; the primary alias alone when it does not read so.
pub open spec fn pair_aliases(id: Seq<char>, alias: Seq<char>) -> (Seq<char>, Option<Seq<char>>) {
    let k: int = if starts_with_spec(id, "entry_"@) {
        6
    } else if starts_with_spec(id, "exit_"@) {
        5
    } else {
        0
    };
    match find_spec(id, sep_pat()) {
        Some(s) => match last_index_of(id.skip(s + 2), '_') {
            Some(u) => if k <= s {
                (id.subrange(k, s), Some(id.skip(s + 2).take(u)))
            } else {
                (alias, None)
            },
            None => (alias, None),
        },
        None => (alias, None),
    }
}

fn pair_aliases_exec(id: &String, alias: &String) -> (r: (String, Option<String>))
    ensures
        r.0@ == pair_aliases(id@, alias@).0,
        (match r.1 {
            Some(x) => Some(x@),
            None => None,
        }) == pair_aliases(id@, alias@).1,
{
    proof {
        reveal_strlit("entry_");
        reveal_strlit("exit_");
    }
    let c = chars_of(id.as_str());
    let entry = chars_of("entry_");
    let exit = chars_of("exit_");
    let k: usize = if starts_with(&c, &entry) {
        6
    } else if starts_with(&c, &exit) {
        5
    } else {
        0
    };
    let sep: Vec<char> = vec![':', ':'];
    assert(sep@ =~= sep_pat());
    match find(&c, &sep) {
        Some(s) => {
            let mut after: Vec<char> = Vec::new();
            let mut i: usize = s + 2;
            while i < c.len()
                invariant
                    s + 2 <= i <= c@.len(),
                    after@ == c@.subrange(s + 2, i as int),
                decreases c@.len() - i,
            {
                after.push(c[i]);
                i = i + 1;
                assert(after@ =~= c@.subrange(s + 2, i as int));
            }
            assert(after@ =~= c@.skip(s + 2));
            match rfind_char(&after, '_') {
                Some(u) => {
                    if k <= s {
                        let primary = substring(id.as_str(), k, s);
                        let rest = substring(id.as_str(), s + 2, c.len());
                        assert(rest@ =~= c@.skip(s + 2));
                        let secondary = substring(rest.as_str(), 0, u);
                        assert(secondary@ =~= c@.skip(s + 2).take(u as int));
                        (primary, Some(secondary))
                    } else {
                        (alias.clone(), None)
                    }
                },
                None => (alias.clone(), None),
            }
        },
        None => (alias.clone(), None),
    }
}

/// The percentage range of the rules for the indicator, or the default one.
pub open spec fn percent_range_for(config: CandidateBuilderConfig, ind: IndicatorInfo) -> PercentRange {
    match percent_range_from(config.rules.indicator_parameter_rules@, ind, 0) {
        Some(r) => r,
        None => default_percent_range(),
    }
}

/// The drawn step of a percentage range, in thousandths.
pub open spec fn range_value(r: PercentRange, pick: u64) -> int {
    r.start + ((pick as nat) % (range_steps(r) + 1)) * r.step
}

/// The identifier and name a condition starts with, and the constant read
/// back from its name: for a constant condition, the drawn constant (a step
/// of the percentage range, or a value of `absolute_range` to one decimal,
/// read back only when the indicator's name holds a word); for a trend
/// condition, the trend after "::" in the identifier and the period in the
/// name; for an indicator-indicator condition with a comparable indicator,
/// the drawn one after "::"; otherwise "target".
pub open spec fn condition_text(
    reg: BuildRulesRegistry,
    config: CandidateBuilderConfig,
    primary: IndicatorInfo,
    all: Seq<IndicatorInfo>,
    comp: Seq<int>,
    kind: ConditionKind,
    op: ConditionOperator,
    prefix: Seq<char>,
    d: ConditionDraws,
) -> (Seq<char>, Seq<char>, Option<u64>) {
    let head = primary.name@ + seq![' '] + operator_name(op) + seq![' '];
    let price_id = prefix + seq!['_'] + primary.alias@ + seq!['_'] + decimal(d.number as nat);
    if kind == ConditionKind::IndicatorConstant {
        if threshold_is(reg, primary.name@, ThresholdType::PercentOfPrice) {
            let v = range_value(percent_range_for(config, primary), d.constant_pick);
            (price_id, head + "Close * "@ + hundredths_text((v / 10) as nat) + "%"@, Some(((v / 10) * 10) as u64))
        } else {
            let (lo, hi) = absolute_range(primary.name@, op);
            let t = lo + (d.constant_pick as int) % (hi - lo + 1);
            (
                price_id,
                head + tenths_text(t as nat),
                if has_word(primary.name@) {
                    Some((t * 100) as u64)
                } else {
                    None
                },
            )
        }
    } else if kind == ConditionKind::TrendCondition {
        let t = if op == ConditionOperator::FallingTrend { TrendType::Falling } else { TrendType::Rising };
        (
            prefix + seq!['_'] + primary.alias@ + sep_pat() + crate::condition_id::trend_text(t) + seq!['_'] + decimal(
                d.number as nat,
            ),
            primary.name@ + seq![' '] + trend_display(t) + " (period: "@ + decimal(d.period as nat) + ")"@,
            None,
        )
    } else if kind == ConditionKind::IndicatorIndicator && comp.len() > 0 {
        let sec = all[comp[(d.secondary_pick as nat % comp.len()) as int]];
        (
            prefix + seq!['_'] + primary.alias@ + sep_pat() + sec.alias@ + seq!['_'] + decimal(d.number as nat),
            head + sec.name@,
            None,
        )
    } else {
        (price_id, head + "target"@, None)
    }
}

/// The condition built on the candidate's indicators for the draws: none
/// when the candidate has no indicator; otherwise the primary indicator at
/// the drawn position, the kind of `shape_kind_on` and the operator of
/// `op_on`, with the identifier, name and constant of `condition_text`; an
/// indicator-indicator condition whose identifier lacks "::" becomes a
/// price condition; a percent operator, or the coin for a price or
/// indicator-indicator condition, gives it the drawn percentage (appended
/// to its name as "на {percent}%"), a trend condition takes the period 20;
/// a price condition takes the drawn price field; an indicator-indicator
/// condition takes the aliases read back from its identifier.
pub open spec fn built_condition_on(
    reg: BuildRulesRegistry,
    indicators: Seq<IndicatorInfo>,
    ns: Seq<NestedIndicator>,
    p: ConditionProbabilities,
    is_entry: bool,
    config: CandidateBuilderConfig,
    d: ConditionDraws,
    r: Option<ConditionInfo>,
) -> bool {
    let all = bases(indicators, ns);
    if all.len() == 0 {
        r is None
    } else {
        let primary = all[(d.primary_pick as nat % all.len()) as int];
        let kind = shape_kind_on(reg, primary, indicators, ns, p, d.kind_draw, d.fallback_draw);
        let op = op_on(reg, primary.name@, kind == ConditionKind::TrendCondition, d.operator_pick as nat, d.operator_coin);
        let prefix = prefix_text(if is_entry { ConditionPrefix::Entry } else { ConditionPrefix::Exit });
        let comp = comparable_positions(reg, primary, all, ns, indicators);
        let (id, name0, constant0) = condition_text(reg, config, primary, all, comp, kind, op, prefix, d);
        let fin = if kind == ConditionKind::IndicatorIndicator && !contains_spec(id, sep_pat()) {
            ConditionKind::IndicatorPrice
        } else {
            kind
        };
        let pct = 10 + (d.percent_pick as nat) % 491;
        let percent_op = op == ConditionOperator::LowerPercent || op == ConditionOperator::GreaterPercent;
        let pair = fin == ConditionKind::IndicatorPrice || fin == ConditionKind::IndicatorIndicator;
        let constant = if percent_op {
            Some((pct * 10) as u64)
        } else if fin == ConditionKind::TrendCondition {
            Some(20_000u64)
        } else if pair && d.percent {
            Some((pct * 10) as u64)
        } else {
            constant0
        };
        let name = if pair && (percent_op || d.percent) {
            name0 + " на "@ + hundredths_text(pct) + "%"@
        } else {
            name0
        };
        let aliases = if fin == ConditionKind::IndicatorIndicator {
            pair_aliases(id, primary.alias@)
        } else {
            (primary.alias@, None)
        };
        &&& r matches Some(c)
        &&& c.id@ == id
        &&& c.name@ == name
        &&& c.operator == op
        &&& c.condition_type@ == kind_text(fin)
        &&& c.constant_value == constant
        &&& c.primary_indicator_alias@ == aliases.0
        &&& (match c.secondary_indicator_alias {
            Some(x) => Some(x@),
            None => None,
        }) == aliases.1
        &&& c.primary_timeframe is None
        &&& c.secondary_timeframe is None
        &&& (match c.price_field {
            Some(x) => Some(x@),
            None => None,
        }) == (if fin == ConditionKind::IndicatorPrice {
            Some(
                field_at(
                    config.condition_config.price_fields@,
                    if kind == ConditionKind::IndicatorPrice {
                        d.price_pick
                    } else {
                        d.second_price_pick
                    },
                ),
            )
        } else {
            None
        })
    }
}

fn condition_text_exec(
    registry: &BuildRulesRegistry,
    config: &CandidateBuilderConfig,
    primary: &IndicatorInfo,
    all: &Vec<IndicatorInfo>,
    comp: &Vec<usize>,
    kind: ConditionKind,
    op: ConditionOperator,
    prefix: &str,
    d: &ConditionDraws,
) -> (r: (String, String, Option<u64>))
    requires
        forall|k: int| 0 <= k < comp@.len() ==> #[trigger] comp@[k] < all@.len(),
    ensures
        ({
            let spec_comp = comp@.map_values(|x: usize| x as int);
            let t = condition_text(*registry, *config, *primary, all@, spec_comp, kind, op, prefix@, *d);
            r.0@ == t.0 && r.1@ == t.1 && r.2 == t.2
        }),
{
    proof {
        reveal_strlit(" ");
        reveal_strlit(" (period: ");
        reveal_strlit(")");
        reveal_strlit("Close * ");
        reveal_strlit("%");
        reveal_strlit("target");
        reveal_strlit("RSI");
        reveal_strlit("Stochastic");
    }
    let ghost spec_comp = comp@.map_values(|x: usize| x as int);
    let mut head = primary.name.clone();
    head.append(" ");
    head.append(op.name());
    head.append(" ");
    let ghost h = primary.name@ + seq![' '] + operator_name(op) + seq![' '];
    assert(head@ =~= h);
    if kind == ConditionKind::IndicatorConstant {
        let id = ConditionId::indicator_price(prefix, primary.alias.as_str(), d.number);
        if has_percent_of_price_threshold(registry, primary.name.as_str()) {
            let range = match get_volatility_percentage_range(config, primary) {
                Some(r) => r,
                None => PercentRange { start: 200, end: 10_000, step: 100 },
            };
            let v = range_step_exec(range, d.constant_pick);
            let mut name = head;
            name.append("Close * ");
            push_hundredths(&mut name, v / 10);
            name.append("%");
            assert(name@ =~= h + "Close * "@ + hundredths_text((v / 10) as nat) + "%"@);
            (id, name, Some((v / 10) * 10))
        } else {
            let (lo, hi): (u64, u64) = if crate::text::same_text(primary.name.as_str(), "RSI") {
                if op == ConditionOperator::Above {
                    (700, 900)
                } else {
                    (100, 300)
                }
            } else if crate::text::same_text(primary.name.as_str(), "Stochastic") {
                if op == ConditionOperator::Above {
                    (800, 950)
                } else {
                    (50, 200)
                }
            } else {
                (0, 1000)
            };
            assert((lo, hi) == absolute_range(primary.name@, op));
            let t = lo + d.constant_pick % (hi - lo + 1);
            let mut name = head;
            push_tenths(&mut name, t);
            assert(name@ =~= h + tenths_text(t as nat));
            let constant = if has_word_exec(primary.name.as_str()) {
                Some(t * 100)
            } else {
                None
            };
            (id, name, constant)
        }
    } else if kind == ConditionKind::TrendCondition {
        let t = if op == ConditionOperator::FallingTrend {
            TrendType::Falling
        } else {
            TrendType::Rising
        };
        let id = ConditionId::indicator_indicator(prefix, primary.alias.as_str(), t.as_str(), d.number);
        let mut name = primary.name.clone();
        name.append(" ");
        let display = if t == TrendType::Falling {
            ConditionOperator::FallingTrend
        } else {
            ConditionOperator::RisingTrend
        };
        name.append(display.name());
        name.append(" (period: ");
        push_decimal(&mut name, d.period as u64);
        name.append(")");
        assert(operator_name(display) == trend_display(t));
        assert(name@ =~= primary.name@ + seq![' '] + trend_display(t) + " (period: "@ + decimal(d.period as nat) + ")"@);
        (id, name, None)
    } else if kind == ConditionKind::IndicatorIndicator && comp.len() > 0 {
        let q = d.secondary_pick % comp.len();
        let sec = &all[comp[q]];
        assert(spec_comp[q as int] == comp@[q as int] as int);
        let id = ConditionId::indicator_indicator(prefix, primary.alias.as_str(), sec.alias.as_str(), d.number);
        let mut name = head;
        name.append(sec.name.as_str());
        assert(name@ =~= h + sec.name@);
        (id, name, None)
    } else {
        let id = ConditionId::indicator_price(prefix, primary.alias.as_str(), d.number);
        let mut name = head;
        name.append("target");
        assert(name@ =~= h + "target"@);
        (id, name, None)
    }
}

/// The drawn step of a percentage range, as `range_value` says.
fn range_step_exec(range: PercentRange, pick: u64) -> (v: u64)
    ensures
        v as int == range_value(range, pick),
{
    let steps: u64 = if range.step > 0 && range.end > range.start {
        (range.end - range.start) / range.step
    } else {
        0
    };
    assert(steps == range_steps(range));
    let idx = if steps < u64::MAX {
        pick % (steps + 1)
    } else {
        pick
    };
    proof {
        if steps == u64::MAX {
            vstd::arithmetic::div_mod::lemma_small_mod(pick as nat, (range_steps(range) + 1) as nat);
        }
        if !(range.step > 0 && range.end > range.start) {
            assert(idx == 0);
            assert(idx * range.step == 0) by (nonlinear_arith)
                requires
                    idx == 0,
            ;
        } else {
            assert(idx * range.step <= range.end - range.start) by (nonlinear_arith)
                requires
                    idx <= steps,
                    steps == (range.end - range.start) / (range.step as int),
                    range.step > 0,
                    range.end > range.start,
            ;
        }
    }
    range.start + idx * range.step
}

/// Builds a condition on the candidate's indicators for the draws, as
/// `built_condition_on` says.
pub fn build_condition_with_draws(
    registry: &BuildRulesRegistry,
    indicators: &Vec<IndicatorInfo>,
    nested_indicators: &Vec<NestedIndicator>,
    probabilities: &ConditionProbabilities,
    is_entry: bool,
    config: &CandidateBuilderConfig,
    draws: &ConditionDraws,
) -> (r: Option<ConditionInfo>)
    ensures
        built_condition_on(*registry, indicators@, nested_indicators@, *probabilities, is_entry, *config, *draws, r),
{
    proof {
        reveal_strlit(" на ");
        reveal_strlit("%");
    }
    let all = all_indicators(indicators, nested_indicators);
    if all.len() == 0 {
        return None;
    }
    let primary = all[draws.primary_pick % all.len()].clone();
    let comp = comparable_exec(registry, &primary, &all, nested_indicators, indicators);
    proof {
        crate::builders::lemma_comparable_positions_bounds(*registry, primary, all@, nested_indicators@, indicators@);
    }
    let ghost spec_comp = comparable_positions(*registry, primary, all@, nested_indicators@, indicators@);
    assert(comp@.map_values(|x: usize| x as int) =~= spec_comp);
    let kind = shape_kind_exec(
        registry,
        &primary,
        indicators,
        nested_indicators,
        &all,
        comp.len() > 0,
        probabilities,
        draws.kind_draw,
        draws.fallback_draw,
    );
    let op = op_exec(registry, primary.name.as_str(), kind == ConditionKind::TrendCondition, draws.operator_pick, draws.operator_coin);
    let prefix = ConditionId::prefix_for(is_entry);
    let (id, name0, constant0) = condition_text_exec(registry, config, &primary, &all, &comp, kind, op, prefix, draws);
    let sep: Vec<char> = vec![':', ':'];
    assert(sep@ =~= sep_pat());
    let id_chars = chars_of(id.as_str());
    let fin = if kind == ConditionKind::IndicatorIndicator && !contains(&id_chars, &sep) {
        ConditionKind::IndicatorPrice
    } else {
        kind
    };
    let pct: u64 = 10 + draws.percent_pick % 491;
    let percent_op = op == ConditionOperator::LowerPercent || op == ConditionOperator::GreaterPercent;
    let pair = fin == ConditionKind::IndicatorPrice || fin == ConditionKind::IndicatorIndicator;
    let constant = if percent_op {
        Some(pct * 10)
    } else if fin == ConditionKind::TrendCondition {
        Some(20_000u64)
    } else if pair && draws.percent {
        Some(pct * 10)
    } else {
        constant0
    };
    let mut name = name0;
    if pair && (percent_op || draws.percent) {
        name.append(" на ");
        push_hundredths(&mut name, pct);
        name.append("%");
    }
    let (primary_alias, secondary_alias) = if fin == ConditionKind::IndicatorIndicator {
        pair_aliases_exec(&id, &primary.alias)
    } else {
        (primary.alias.clone(), None)
    };
    let price_field = if fin == ConditionKind::IndicatorPrice {
        let pick = if kind == ConditionKind::IndicatorPrice {
            draws.price_pick
        } else {
            draws.second_price_pick
        };
        Some(field_at_exec(&config.condition_config.price_fields, pick))
    } else {
        None
    };
    let r = ConditionInfo {
        id,
        name,
        operator: op,
        condition_type: kind_string(fin),
        constant_value: constant,
        primary_indicator_alias: primary_alias,
        secondary_indicator_alias: secondary_alias,
        primary_timeframe: None,
        secondary_timeframe: None,
        price_field,
    };
    Some(r)
}

/// How many operators of the sort the rules admit for the indicator.
fn fitting_count(registry: &BuildRulesRegistry, name: &str, trend: bool) -> (r: usize) {
    let allowed = crate::build_rules::get_allowed_conditions(registry, name);
    let mut n: usize = 0;
    let mut i: usize = 0;
    while i < allowed.len()
        invariant
            i <= allowed@.len(),
            n <= i,
        decreases allowed@.len() - i,
    {
        let op = allowed[i];
        let is_trend = op == ConditionOperator::RisingTrend || op == ConditionOperator::FallingTrend;
        if is_trend == trend {
            n = n + 1;
        }
        i = i + 1;
    }
    n
}

/// The number of values the draw of a kind ranges over: the weights of the
/// oscillator-based choice for an indicator built on one with an absolute
/// threshold, else the weights of all three kinds (at least one).
fn kind_bound(
    registry: &BuildRulesRegistry,
    primary: &IndicatorInfo,
    nested: &Vec<NestedIndicator>,
    all: &Vec<IndicatorInfo>,
    probabilities: &ConditionProbabilities,
) -> (r: u64)
    ensures
        r > 0,
{
    let wp = probabilities.use_indicator_price_condition as u64;
    let wi = probabilities.use_indicator_indicator_condition as u64;
    let wt = probabilities.use_trend_condition as u64;
    let on_oscillator = match crate::selection::input_of_exec(nested.as_slice(), all.as_slice(), &primary.alias) {
        Some(x) => has_absolute_threshold(registry, x.name.as_str()),
        None => false,
    };
    let bound = if on_oscillator {
        wi + wt
    } else {
        wp + wi + wt
    };
    if bound == 0 {
        1
    } else {
        bound
    }
}

/// Builds a condition at random on one of the candidate's indicators (plain
/// or nested): its kind and operator as the rules and the weights allow, a
/// second comparable indicator, a constant, a trend period from
/// `min_period` to `max_period`, a price field and a percentage, each drawn
/// as `ConditionDraws` describes; the result is that of
/// `built_condition_on` for the draws, none when the candidate has no
/// indicator.
pub fn build_condition(
    registry: &BuildRulesRegistry,
    indicators: &Vec<IndicatorInfo>,
    nested_indicators: &Vec<NestedIndicator>,
    probabilities: &ConditionProbabilities,
    is_entry: bool,
    config: &CandidateBuilderConfig,
    min_period: u32,
    max_period: u32,
    rng: &mut ThreadRng,
) -> (r: Option<ConditionInfo>)
    requires
        crate::builders::fallback_defined(*registry, indicators@, nested_indicators@, *probabilities),
        min_period <= max_period,
    ensures
        r is None <==> indicators@.len() + nested_indicators@.len() == 0,
        exists|d: ConditionDraws|
            min_period <= d.period <= max_period && #[trigger] built_condition_on(
                *registry,
                indicators@,
                nested_indicators@,
                *probabilities,
                is_entry,
                *config,
                d,
                r,
            ),
        certain(probabilities.use_percent_condition) ==> (r matches Some(c) ==> (c.condition_type@
            == indicator_price_text() || c.condition_type@ == crate::model::indicator_indicator_text())
            ==> c.constant_value is Some),
{
    let all = all_indicators(indicators, nested_indicators);
    let span: u64 = max_period as u64 - min_period as u64 + 1;
    let period = (min_period as u64 + random_below_u64(rng, span)) as u32;
    if all.len() == 0 {
        let d = ConditionDraws {
            primary_pick: 0,
            kind_draw: 0,
            fallback_draw: 0,
            operator_pick: 0,
            operator_coin: false,
            secondary_pick: 0,
            constant_pick: 0,
            period,
            number: 0,
            price_pick: 0,
            second_price_pick: 0,
            percent: false,
            percent_pick: 0,
        };
        let r = build_condition_with_draws(registry, indicators, nested_indicators, probabilities, is_entry, config, &d);
        return r;
    }
    let primary_pick = random_below(rng, all.len());
    let primary = &all[primary_pick];
    let comp = comparable_exec(registry, primary, &all, nested_indicators, indicators);
    let kind_draw = random_below_u64(rng, kind_bound(registry, primary, nested_indicators, &all, probabilities));
    let wp = probabilities.use_indicator_price_condition as u64;
    let wt = probabilities.use_trend_condition as u64;
    let fallback_draw = if wp + wt > 0 {
        random_below_u64(rng, wp + wt)
    } else {
        0
    };
    let kind = shape_kind_exec(
        registry,
        primary,
        indicators,
        nested_indicators,
        &all,
        comp.len() > 0,
        probabilities,
        kind_draw,
        fallback_draw,
    );
    let trend = kind == ConditionKind::TrendCondition;
    let fitting = fitting_count(registry, primary.name.as_str(), trend);
    let operator_pick = if fitting > 0 {
        random_below(rng, fitting)
    } else {
        0
    };
    let operator_coin = random_ratio(rng, 1, 2);
    let op = op_exec(registry, primary.name.as_str(), trend, operator_pick, operator_coin);
    let secondary_pick = if comp.len() > 0 {
        random_below(rng, comp.len())
    } else {
        0
    };
    let constant_pick = random_below_u64(rng, constant_count(registry, primary, op, config));
    let number = random_u32(rng);
    let fields = config.condition_config.price_fields.len();
    let price_pick = if fields > 1 {
        random_below(rng, fields)
    } else {
        0
    };
    let second_price_pick = if fields > 1 {
        random_below(rng, fields)
    } else {
        0
    };
    let percent = should_add(probabilities.use_percent_condition, rng);
    let percent_pick = random_below_u64(rng, 491);
    let d = ConditionDraws {
        primary_pick,
        kind_draw,
        fallback_draw,
        operator_pick,
        operator_coin,
        secondary_pick,
        constant_pick,
        period,
        number,
        price_pick,
        second_price_pick,
        percent,
        percent_pick,
    };
    build_condition_with_draws(registry, indicators, nested_indicators, probabilities, is_entry, config, &d)
}

/// What is drawn to create a condition for a given indicator, once its
/// operator and kind are chosen.
pub struct CreateDraws {
    /// The position of the second indicator among the comparable ones.
    pub secondary_pick: usize,
    /// The position of the constant among the allowed ones.
    pub constant_pick: u64,
    /// The period named by a trend condition.
    pub period: u32,
    /// The number that ends the identifier.
    pub number: u32,
    /// Whether an above or below condition gets a percentage.
    pub percent: bool,
    /// The position of the percentage among 0.10 to 5.00 by hundredths.
    pub percent_pick: u64,
}

/// The range, in hundredths, of the constant a volatility indicator is
/// compared with: 0.20 to 10.00 percent of the price.
pub open spec fn volatility_range() -> (u64, u64) {
    (20, 1000)
}

/// The condition created for the indicator of the candidate, with the
/// operator and kind chosen and the draws:
/// - a constant condition against a drawn constant: a percentage of the
///   price from 0.20 to 10.00 by hundredths for a volatility indicator
///   (named "... Close * {percent}%"), else a value of `absolute_range` to
///   one decimal;
/// - a trend condition named with the drawn period;
/// - an indicator-indicator condition against the drawn comparable
///   indicator, none when there is none;
/// - otherwise a price condition on "Close";
/// where an above or below operator and the coin give a pair or price
/// condition the drawn percentage ("на {percent}%"), and an
/// indicator-indicator condition takes the aliases read back from its
/// identifier.
pub open spec fn created_condition_on(
    reg: BuildRulesRegistry,
    indicator: IndicatorInfo,
    c: crate::model::StrategyCandidateView,
    is_entry: bool,
    op: ConditionOperator,
    kind: ConditionKind,
    d: CreateDraws,
    r: Option<ConditionInfo>,
) -> bool {
    let all = bases(c.indicators, c.nested_indicators);
    let prefix = prefix_text(if is_entry { ConditionPrefix::Entry } else { ConditionPrefix::Exit });
    let head = indicator.name@ + seq![' '] + operator_name(op) + seq![' '];
    let tail = seq!['_'] + decimal(d.number as nat);
    let pct = 10 + (d.percent_pick as nat) % 491;
    let percented = (op == ConditionOperator::Above || op == ConditionOperator::Below) && d.percent;
    let comp = comparable_positions(reg, indicator, all, c.nested_indicators, c.indicators);
    if kind == ConditionKind::IndicatorIndicator && comp.len() == 0 {
        r is None
    } else {
        let (id, name, constant, field): (Seq<char>, Seq<char>, Option<u64>, Option<Seq<char>>) = if kind
            == ConditionKind::IndicatorConstant {
            if indicator.indicator_type@ == "volatility"@ {
                let (lo, hi) = volatility_range();
                let h = lo + (d.constant_pick as int) % (hi - lo + 1);
                (
                    prefix + seq!['_'] + indicator.alias@ + tail,
                    head + "Close * "@ + hundredths_text(h as nat) + "%"@,
                    Some((h * 10) as u64),
                    None,
                )
            } else {
                let (lo, hi) = absolute_range(indicator.name@, op);
                let t = lo + (d.constant_pick as int) % (hi - lo + 1);
                (prefix + seq!['_'] + indicator.alias@ + tail, head + tenths_text(t as nat), Some((t * 100) as u64), None)
            }
        } else if kind == ConditionKind::TrendCondition {
            let t = if op == ConditionOperator::FallingTrend { TrendType::Falling } else { TrendType::Rising };
            (
                prefix + seq!['_'] + indicator.alias@ + seq!['_'] + crate::condition_id::trend_text(t) + tail,
                indicator.name@ + seq![' '] + trend_display(t) + " (period: "@ + decimal(d.period as nat) + ")"@,
                None,
                None,
            )
        } else if kind == ConditionKind::IndicatorIndicator {
            let sec = all[comp[(d.secondary_pick as nat % comp.len()) as int]];
            (
                prefix + seq!['_'] + indicator.alias@ + seq!['_'] + sec.alias@ + tail,
                if percented {
                    head + sec.name@ + " на "@ + hundredths_text(pct) + "%"@
                } else {
                    head + sec.name@
                },
                if percented {
                    Some((pct * 10) as u64)
                } else {
                    None
                },
                None,
            )
        } else {
            (
                prefix + seq!['_'] + indicator.alias@ + tail,
                if percented {
                    head + "target на "@ + hundredths_text(pct) + "%"@
                } else {
                    head + "target"@
                },
                if percented {
                    Some((pct * 10) as u64)
                } else {
                    None
                },
                Some(close_text()),
            )
        };
        let aliases = if kind == ConditionKind::IndicatorIndicator {
            pair_aliases(id, indicator.alias@)
        } else {
            (indicator.alias@, None)
        };
        &&& r matches Some(x)
        &&& x.id@ == id
        &&& x.name@ == name
        &&& x.operator == op
        &&& x.condition_type@ == kind_text(kind)
        &&& x.constant_value == constant
        &&& x.primary_indicator_alias@ == aliases.0
        &&& (match x.secondary_indicator_alias {
            Some(y) => Some(y@),
            None => None,
        }) == aliases.1
        &&& x.primary_timeframe is None
        &&& x.secondary_timeframe is None
        &&& (match x.price_field {
            Some(y) => Some(y@),
            None => None,
        }) == field
    }
}

/// Creates a condition for the indicator of the candidate, with the
/// operator and kind chosen and the draws, as `created_condition_on` says.
pub fn create_condition_for_indicator_with_draws(
    registry: &BuildRulesRegistry,
    indicator: &IndicatorInfo,
    candidate: &crate::model::StrategyCandidate,
    is_entry: bool,
    op: ConditionOperator,
    kind: ConditionKind,
    draws: &CreateDraws,
) -> (r: Option<ConditionInfo>)
    ensures
        created_condition_on(*registry, *indicator, candidate@, is_entry, op, kind, *draws, r),
{
    proof {
        reveal_strlit(" ");
        reveal_strlit(" (period: ");
        reveal_strlit(")");
        reveal_strlit("Close * ");
        reveal_strlit("%");
        reveal_strlit("target");
        reveal_strlit("target на ");
        reveal_strlit(" на ");
        reveal_strlit("RSI");
        reveal_strlit("Stochastic");
        reveal_strlit("volatility");
        reveal_strlit("Close");
    }
    let all = all_indicators(&candidate.indicators, &candidate.nested_indicators);
    let comp = comparable_exec(registry, indicator, &all, &candidate.nested_indicators, &candidate.indicators);
    proof {
        crate::builders::lemma_comparable_positions_bounds(
            *registry,
            *indicator,
            all@,
            candidate.nested_indicators@,
            candidate.indicators@,
        );
    }
    if kind == ConditionKind::IndicatorIndicator && comp.len() == 0 {
        return None;
    }
    let prefix = ConditionId::prefix_for(is_entry);
    let mut head = indicator.name.clone();
    head.append(" ");
    head.append(op.name());
    head.append(" ");
    let ghost h = indicator.name@ + seq![' '] + operator_name(op) + seq![' '];
    assert(head@ =~= h);
    let pct: u64 = 10 + draws.percent_pick % 491;
    let percented = (op == ConditionOperator::Above || op == ConditionOperator::Below) && draws.percent;
    let (id, name, constant, field) = if kind == ConditionKind::IndicatorConstant {
        let id = ConditionId::indicator_price(prefix, indicator.alias.as_str(), draws.number);
        assert(id@ =~= prefix@ + seq!['_'] + indicator.alias@ + (seq!['_'] + decimal(draws.number as nat)));
        if crate::text::same_text(indicator.indicator_type.as_str(), "volatility") {
            let h2 = 20 + draws.constant_pick % 981;
            let mut name = head;
            name.append("Close * ");
            push_hundredths(&mut name, h2);
            name.append("%");
            assert(name@ =~= h + "Close * "@ + hundredths_text(h2 as nat) + "%"@);
            (id, name, Some(h2 * 10), None)
        } else {
            let (lo, hi): (u64, u64) = if crate::text::same_text(indicator.name.as_str(), "RSI") {
                if op == ConditionOperator::Above {
                    (700, 900)
                } else {
                    (100, 300)
                }
            } else if crate::text::same_text(indicator.name.as_str(), "Stochastic") {
                if op == ConditionOperator::Above {
                    (800, 950)
                } else {
                    (50, 200)
                }
            } else {
                (0, 1000)
            };
            assert((lo, hi) == absolute_range(indicator.name@, op));
            let t = lo + draws.constant_pick % (hi - lo + 1);
            let mut name = head;
            push_tenths(&mut name, t);
            assert(name@ =~= h + tenths_text(t as nat));
            (id, name, Some(t * 100), None)
        }
    } else if kind == ConditionKind::TrendCondition {
        let t = if op == ConditionOperator::FallingTrend {
            TrendType::Falling
        } else {
            TrendType::Rising
        };
        let id = ConditionId::trend_condition(prefix, indicator.alias.as_str(), t, draws.number);
        assert(id@ =~= prefix@ + seq!['_'] + indicator.alias@ + seq!['_'] + crate::condition_id::trend_text(t) + (seq!['_'] + decimal(draws.number as nat)));
        let display = if t == TrendType::Falling {
            ConditionOperator::FallingTrend
        } else {
            ConditionOperator::RisingTrend
        };
        let mut name = indicator.name.clone();
        name.append(" ");
        name.append(display.name());
        name.append(" (period: ");
        push_decimal(&mut name, draws.period as u64);
        name.append(")");
        assert(operator_name(display) == trend_display(t));
        assert(name@ =~= indicator.name@ + seq![' '] + trend_display(t) + " (period: "@ + decimal(draws.period as nat) + ")"@);
        (id, name, None, None)
    } else if kind == ConditionKind::IndicatorIndicator {
        let q = draws.secondary_pick % comp.len();
        let sec = &all[comp[q]];
        let mut id = owned(prefix);
        id.append("_");
        id.append(indicator.alias.as_str());
        id.append("_");
        id.append(sec.alias.as_str());
        id.append("_");
        push_decimal(&mut id, draws.number as u64);
        proof {
            reveal_strlit("_");
        }
        assert(id@ =~= prefix@ + seq!['_'] + indicator.alias@ + seq!['_'] + sec.alias@ + (seq!['_'] + decimal(draws.number as nat)));
        let mut name = head;
        name.append(sec.name.as_str());
        let constant = if percented {
            name.append(" на ");
            push_hundredths(&mut name, pct);
            name.append("%");
            assert(name@ =~= h + sec.name@ + " на "@ + hundredths_text(pct as nat) + "%"@);
            Some(pct * 10)
        } else {
            assert(name@ =~= h + sec.name@);
            None
        };
        (id, name, constant, None)
    } else {
        let id = ConditionId::indicator_price(prefix, indicator.alias.as_str(), draws.number);
        assert(id@ =~= prefix@ + seq!['_'] + indicator.alias@ + (seq!['_'] + decimal(draws.number as nat)));
        let mut name = head;
        let constant = if percented {
            name.append("target на ");
            push_hundredths(&mut name, pct);
            name.append("%");
            assert(name@ =~= h + "target на "@ + hundredths_text(pct as nat) + "%"@);
            Some(pct * 10)
        } else {
            name.append("target");
            assert(name@ =~= h + "target"@);
            None
        };
        let f = owned("Close");
        assert(f@ =~= close_text());
        (id, name, constant, Some(f))
    };
    let (primary_alias, secondary_alias) = if kind == ConditionKind::IndicatorIndicator {
        pair_aliases_exec(&id, &indicator.alias)
    } else {
        (indicator.alias.clone(), None)
    };
    Some(ConditionInfo {
        id,
        name,
        operator: op,
        condition_type: kind_string(kind),
        constant_value: constant,
        primary_indicator_alias: primary_alias,
        secondary_indicator_alias: secondary_alias,
        primary_timeframe: None,
        secondary_timeframe: None,
        price_field: field,
    })
}

/// The probabilities of conditions of a genetic run: those of its builder
/// configuration, or the default ones.
pub open spec fn run_condition_probabilities(config: crate::population::GeneticAlgorithmConfig) -> ConditionProbabilities {
    match config.candidate_builder_config {
        Some(c) => c.probabilities.conditions,
        None => ConditionProbabilities {
            add_entry_condition: 700_000,
            use_indicator_price_condition: 700_000,
            use_indicator_indicator_condition: 500_000,
            use_crosses_operator: 400_000,
            use_trend_condition: 200_000,
            use_percent_condition: 150_000,
        },
    }
}

/// Creates a condition at random for the indicator of the candidate: the
/// operator and kind chosen from the indicator's category and nesting with
/// the run's probabilities of conditions, then the rest drawn as
/// `CreateDraws` describes, with a trend period from `min_period` to
/// `max_period`; the result is that of `created_condition_on`.
pub fn create_condition_for_indicator(
    registry: &BuildRulesRegistry,
    indicator: &IndicatorInfo,
    candidate: &crate::model::StrategyCandidate,
    is_entry: bool,
    config: &crate::population::GeneticAlgorithmConfig,
    min_period: u32,
    max_period: u32,
    rng: &mut ThreadRng,
) -> (r: Option<ConditionInfo>)
    requires
        min_period <= max_period,
    ensures
        exists|op: ConditionOperator, kind: ConditionKind, d: CreateDraws|
            #![trigger created_condition_on(*registry, *indicator, candidate@, is_entry, op, kind, d, r)]
            {
                let p = run_condition_probabilities(*config);
                let all = bases(candidate@.indicators, candidate@.nested_indicators);
                &&& crate::selection::condition_type_allowed(
                    crate::selection::category_of(indicator.indicator_type@),
                    crate::selection::used_as_input(*indicator, candidate@.nested_indicators),
                    crate::selection::built_on_oscillator_type(*indicator, candidate@.nested_indicators, all),
                    p,
                    kind,
                )
                &&& crate::selection::operator_allowed(crate::selection::category_of(indicator.indicator_type@), kind_text(kind), p, op)
                &&& min_period <= d.period <= max_period
                &&& created_condition_on(*registry, *indicator, candidate@, is_entry, op, kind, d, r)
            },
{
    let probabilities = match &config.candidate_builder_config {
        Some(c) => c.probabilities.conditions,
        None => ConditionProbabilities::default(),
    };
    assert(probabilities == run_condition_probabilities(*config));
    let all = all_indicators(&candidate.indicators, &candidate.nested_indicators);
    let (op, kind) = crate::selection::OperatorSelectorFactory::select_operator_and_condition_type(
        indicator,
        candidate.nested_indicators.as_slice(),
        all.as_slice(),
        &probabilities,
        rng,
    );
    let comp = comparable_exec(registry, indicator, &all, &candidate.nested_indicators, &candidate.indicators);
    let secondary_pick = if comp.len() > 0 {
        random_below(rng, comp.len())
    } else {
        0
    };
    let constant_count: u64 = if crate::text::same_text(indicator.indicator_type.as_str(), "volatility") {
        981
    } else if crate::text::same_text(indicator.name.as_str(), "RSI") {
        201
    } else if crate::text::same_text(indicator.name.as_str(), "Stochastic") {
        151
    } else {
        1001
    };
    let constant_pick = random_below_u64(rng, constant_count);
    let span: u64 = max_period as u64 - min_period as u64 + 1;
    let period = (min_period as u64 + random_below_u64(rng, span)) as u32;
    let number = random_u32(rng);
    let percent = should_add(probabilities.use_percent_condition, rng);
    let percent_pick = random_below_u64(rng, 491);
    let d = CreateDraws { secondary_pick, constant_pick, period, number, percent, percent_pick };
    create_condition_for_indicator_with_draws(registry, indicator, candidate, is_entry, op, kind, &d)
}

/// An indicator-indicator condition with some indicator to compare with
/// names, in its identifier and its name, an indicator of another alias
/// that may be compared with the primary one.
pub proof fn law_pair_condition_names_comparable(
    reg: BuildRulesRegistry,
    config: CandidateBuilderConfig,
    primary: IndicatorInfo,
    all: Seq<IndicatorInfo>,
    ns: Seq<NestedIndicator>,
    plain: Seq<IndicatorInfo>,
    op: ConditionOperator,
    prefix: Seq<char>,
    d: ConditionDraws,
)
    requires
        comparable_positions(reg, primary, all, ns, plain).len() > 0,
    ensures
        exists|j: int|
            0 <= j < all.len() && (#[trigger] all[j]).alias@ != primary.alias@ && compare_allowed(reg, primary, all[j], ns, plain)
                && condition_text(
                reg,
                config,
                primary,
                all,
                comparable_positions(reg, primary, all, ns, plain),
                ConditionKind::IndicatorIndicator,
                op,
                prefix,
                d,
            ) == (
                prefix + seq!['_'] + primary.alias@ + sep_pat() + all[j].alias@ + seq!['_'] + decimal(d.number as nat),
                primary.name@ + seq![' '] + operator_name(op) + seq![' '] + all[j].name@,
                None::<u64>,
            ),
{
    let comp = comparable_positions(reg, primary, all, ns, plain);
    law_comparable_positions_exact(reg, primary, all, ns, plain);
    let k = (d.secondary_pick as nat % comp.len()) as int;
    let j = comp[k];
    assert(0 <= j < all.len());
    assert(all[j].alias@ != primary.alias@ && compare_allowed(reg, primary, all[j], ns, plain));
}

} // verus!
