//! What a condition compares, and when two conditions contradict or repeat
//! each other.

use vstd::prelude::*;
use crate::model::{
    close_text, indicator_constant_text, indicator_indicator_text, indicator_price_text,
    is_kind, kind_text, opt_string_eq, opt_text_eq, opt_timeframe_eq, trend_condition_text,
    ConditionInfo, ConditionKind, ConditionOperator,
};
use crate::text::owned;

verus! {

/// The operands of a comparison condition.
pub enum ConditionOperands {
    IndicatorPrice { indicator_alias: String, price_field: String },
    IndicatorIndicator { primary_alias: String, secondary_alias: String },
    IndicatorConstant { indicator_alias: String },
}

/// The operands with their texts as character sequences.
pub enum ConditionOperandsView {
    IndicatorPrice { indicator_alias: Seq<char>, price_field: Seq<char> },
    IndicatorIndicator { primary_alias: Seq<char>, secondary_alias: Seq<char> },
    IndicatorConstant { indicator_alias: Seq<char> },
}

impl View for ConditionOperands {
    type V = ConditionOperandsView;

    open spec fn view(&self) -> ConditionOperandsView {
        match self {
            ConditionOperands::IndicatorPrice { indicator_alias, price_field } => ConditionOperandsView::IndicatorPrice {
                indicator_alias: indicator_alias@,
                price_field: price_field@,
            },
            ConditionOperands::IndicatorIndicator { primary_alias, secondary_alias } => ConditionOperandsView::IndicatorIndicator {
                primary_alias: primary_alias@,
                secondary_alias: secondary_alias@,
            },
            ConditionOperands::IndicatorConstant { indicator_alias } => ConditionOperandsView::IndicatorConstant {
                indicator_alias: indicator_alias@,
            },
        }
    }
}

/// Two sets of operands compare the same things: the same indicator and
/// price field, the same two indicators in either order, or the same
/// indicator against a constant.
pub open spec fn operands_same(a: ConditionOperandsView, b: ConditionOperandsView) -> bool {
    match (a, b) {
        (
            ConditionOperandsView::IndicatorPrice { indicator_alias: a1, price_field: p1 },
            ConditionOperandsView::IndicatorPrice { indicator_alias: a2, price_field: p2 },
        ) => a1 == a2 && p1 == p2,
        (
            ConditionOperandsView::IndicatorIndicator { primary_alias: p1, secondary_alias: s1 },
            ConditionOperandsView::IndicatorIndicator { primary_alias: p2, secondary_alias: s2 },
        ) => (p1 == p2 && s1 == s2) || (p1 == s2 && s1 == p2),
        (
            ConditionOperandsView::IndicatorConstant { indicator_alias: a1 },
            ConditionOperandsView::IndicatorConstant { indicator_alias: a2 },
        ) => a1 == a2,
        _ => false,
    }
}

/// Comparing the same things is symmetric.
pub proof fn law_operands_same_symmetric(a: ConditionOperandsView, b: ConditionOperandsView)
    ensures
        operands_same(a, b) == operands_same(b, a),
{
}

impl ConditionOperands {
    /// Whether both sets of operands compare the same things.
    pub fn same_operands(&self, other: &ConditionOperands) -> (r: bool)
        ensures
            r == operands_same(self@, other@),
    {
        match (self, other) {
            (
                ConditionOperands::IndicatorPrice { indicator_alias: a1, price_field: p1 },
                ConditionOperands::IndicatorPrice { indicator_alias: a2, price_field: p2 },
            ) => *a1 == *a2 && *p1 == *p2,
            (
                ConditionOperands::IndicatorIndicator { primary_alias: p1, secondary_alias: s1 },
                ConditionOperands::IndicatorIndicator { primary_alias: p2, secondary_alias: s2 },
            ) => (*p1 == *p2 && *s1 == *s2) || (*p1 == *s2 && *s1 == *p2),
            (
                ConditionOperands::IndicatorConstant { indicator_alias: a1 },
                ConditionOperands::IndicatorConstant { indicator_alias: a2 },
            ) => *a1 == *a2,
            _ => false,
        }
    }
}

/// The operator compares two values (rather than stating a trend or a range).
pub open spec fn comparison_operator(op: ConditionOperator) -> bool {
    match op {
        ConditionOperator::CrossesAbove | ConditionOperator::CrossesBelow | ConditionOperator::Above
        | ConditionOperator::Below | ConditionOperator::GreaterPercent | ConditionOperator::LowerPercent => true,
        _ => false,
    }
}

/// Whether the operator compares two values.
pub fn is_comparison_operator(operator: &ConditionOperator) -> (r: bool)
    ensures
        r == comparison_operator(*operator),
{
    match operator {
        ConditionOperator::CrossesAbove | ConditionOperator::CrossesBelow | ConditionOperator::Above
        | ConditionOperator::Below | ConditionOperator::GreaterPercent | ConditionOperator::LowerPercent => true,
        _ => false,
    }
}

/// The operands of a condition: none for a trend condition, an
/// indicator-indicator condition without a secondary alias, or an unknown
/// type; an indicator-price condition's price field is "Close" when absent.
pub open spec fn operands_of(c: ConditionInfo) -> Option<ConditionOperandsView> {
    if c.condition_type@ == trend_condition_text() {
        None
    } else if c.condition_type@ == indicator_indicator_text() {
        match c.secondary_indicator_alias {
            Some(s) => Some(ConditionOperandsView::IndicatorIndicator {
                primary_alias: c.primary_indicator_alias@,
                secondary_alias: s@,
            }),
            None => None,
        }
    } else if c.condition_type@ == indicator_price_text() {
        Some(ConditionOperandsView::IndicatorPrice {
            indicator_alias: c.primary_indicator_alias@,
            price_field: match c.price_field {
                Some(p) => p@,
                None => close_text(),
            },
        })
    } else if c.condition_type@ == indicator_constant_text() {
        Some(ConditionOperandsView::IndicatorConstant { indicator_alias: c.primary_indicator_alias@ })
    } else {
        None
    }
}

/// The operands that a condition compares.
pub fn extract_operands(condition: &ConditionInfo) -> (r: Option<ConditionOperands>)
    ensures
        match r {
            Some(o) => operands_of(*condition) == Some(o@),
            None => operands_of(*condition) is None,
        },
{
    if is_kind(condition.condition_type.as_str(), ConditionKind::TrendCondition) {
        return None;
    }
    let primary_alias = &condition.primary_indicator_alias;
    if is_kind(condition.condition_type.as_str(), ConditionKind::IndicatorIndicator) {
        match &condition.secondary_indicator_alias {
            Some(secondary) => {
                return Some(
                    ConditionOperands::IndicatorIndicator {
                        primary_alias: primary_alias.clone(),
                        secondary_alias: secondary.clone(),
                    },
                );
            },
            None => {},
        }
    } else if is_kind(condition.condition_type.as_str(), ConditionKind::IndicatorPrice) {
        proof {
            reveal_strlit("Close");
        }
        assert("Close"@ =~= close_text());
        let price_field = match &condition.price_field {
            Some(p) => p.clone(),
            None => owned("Close"),
        };
        return Some(ConditionOperands::IndicatorPrice { indicator_alias: primary_alias.clone(), price_field });
    } else if is_kind(condition.condition_type.as_str(), ConditionKind::IndicatorConstant) {
        return Some(ConditionOperands::IndicatorConstant { indicator_alias: primary_alias.clone() });
    }
    None
}

/// A condition takes part in comparison conflicts: it is not a trend
/// condition, its operator compares, and it has operands.
pub open spec fn comparable(c: ConditionInfo) -> bool {
    c.condition_type@ != trend_condition_text() && comparison_operator(c.operator) && operands_of(c) is Some
}

/// A new condition compares the same operands as one of the existing ones,
/// both being comparisons.
pub open spec fn conflicts(new: ConditionInfo, existing: Seq<ConditionInfo>) -> bool {
    comparable(new) && exists|i: int|
        0 <= i < existing.len() && comparable(#[trigger] existing[i]) && operands_same(
            operands_of(new)->0,
            operands_of(existing[i])->0,
        )
}

/// Whether a new comparison condition compares the same operands as an
/// existing comparison condition.
pub fn has_conflicting_comparison_operator(new_condition: &ConditionInfo, existing_conditions: &[ConditionInfo]) -> (r: bool)
    ensures
        r == conflicts(*new_condition, existing_conditions@),
{
    if is_kind(new_condition.condition_type.as_str(), ConditionKind::TrendCondition) {
        return false;
    }
    if !is_comparison_operator(&new_condition.operator) {
        return false;
    }
    let new_operands = match extract_operands(new_condition) {
        Some(ops) => ops,
        None => {
            return false;
        },
    };
    let mut i: usize = 0;
    while i < existing_conditions.len()
        invariant
            i <= existing_conditions@.len(),
            comparable(*new_condition),
            operands_of(*new_condition) == Some(new_operands@),
            forall|j: int|
                0 <= j < i ==> !(comparable(#[trigger] existing_conditions@[j]) && operands_same(
                    new_operands@,
                    operands_of(existing_conditions@[j])->0,
                )),
        decreases existing_conditions@.len() - i,
    {
        let existing = &existing_conditions[i];
        if !is_kind(existing.condition_type.as_str(), ConditionKind::TrendCondition) && is_comparison_operator(
            &existing.operator,
        ) {
            match extract_operands(existing) {
                Some(existing_operands) => {
                    if new_operands.same_operands(&existing_operands) {
                        assert(comparable(existing_conditions@[i as int]));
                        return true;
                    }
                },
                None => {},
            }
        }
        i = i + 1;
    }
    false
}

/// Two optional constants are equal: both absent, or both present with the
/// same value.
pub open spec fn constants_equal(a: Option<u64>, b: Option<u64>) -> bool {
    a == b
}

/// Whether two optional constants are equal.
pub fn constants_equal_exec(a: &Option<u64>, b: &Option<u64>) -> (r: bool)
    ensures
        r == constants_equal(*a, *b),
{
    match (a, b) {
        (None, None) => true,
        (Some(x), Some(y)) => *x == *y,
        _ => false,
    }
}

/// An existing condition repeats a new one: same type, operator and primary
/// alias, the same secondary alias for indicator-indicator conditions, the
/// same price field for indicator-price conditions, the same constant for
/// indicator-constant conditions, and the same timeframes.
pub open spec fn repeats(existing: ConditionInfo, new: ConditionInfo) -> bool {
    &&& existing.condition_type@ == new.condition_type@
    &&& existing.operator == new.operator
    &&& existing.primary_indicator_alias@ == new.primary_indicator_alias@
    &&& existing.condition_type@ == indicator_indicator_text() ==> opt_text_eq(
        existing.secondary_indicator_alias,
        new.secondary_indicator_alias,
    )
    &&& existing.condition_type@ == indicator_price_text() ==> opt_text_eq(existing.price_field, new.price_field)
    &&& existing.condition_type@ == indicator_constant_text() ==> constants_equal(existing.constant_value, new.constant_value)
    &&& existing.primary_timeframe == new.primary_timeframe
    &&& existing.secondary_timeframe == new.secondary_timeframe
}

fn repeats_exec(existing: &ConditionInfo, new: &ConditionInfo) -> (r: bool)
    ensures
        r == repeats(*existing, *new),
{
    if existing.condition_type != new.condition_type {
        return false;
    }
    if existing.operator != new.operator {
        return false;
    }
    if existing.primary_indicator_alias != new.primary_indicator_alias {
        return false;
    }
    if is_kind(existing.condition_type.as_str(), ConditionKind::IndicatorIndicator) {
        if !opt_string_eq(&existing.secondary_indicator_alias, &new.secondary_indicator_alias) {
            return false;
        }
    }
    if is_kind(existing.condition_type.as_str(), ConditionKind::IndicatorPrice) {
        if !opt_string_eq(&existing.price_field, &new.price_field) {
            return false;
        }
    }
    if is_kind(existing.condition_type.as_str(), ConditionKind::IndicatorConstant) {
        if !constants_equal_exec(&existing.constant_value, &new.constant_value) {
            return false;
        }
    }
    if !opt_timeframe_eq(&existing.primary_timeframe, &new.primary_timeframe) {
        return false;
    }
    if !opt_timeframe_eq(&existing.secondary_timeframe, &new.secondary_timeframe) {
        return false;
    }
    true
}

/// Whether some existing condition repeats the new one.
pub fn is_duplicate_condition(new_condition: &ConditionInfo, existing_conditions: &[ConditionInfo]) -> (r: bool)
    ensures
        r == exists|i: int| 0 <= i < existing_conditions@.len() && repeats(#[trigger] existing_conditions@[i], *new_condition),
{
    let mut i: usize = 0;
    while i < existing_conditions.len()
        invariant
            i <= existing_conditions@.len(),
            forall|j: int| 0 <= j < i ==> !repeats(#[trigger] existing_conditions@[j], *new_condition),
        decreases existing_conditions@.len() - i,
    {
        if repeats_exec(&existing_conditions[i], new_condition) {
            assert(repeats(existing_conditions@[i as int], *new_condition));
            return true;
        }
        i = i + 1;
    }
    false
}

} // verus!
