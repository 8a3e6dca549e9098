//! Build rules of indicators: which conditions an indicator admits, whether
//! it may be nested, and how it is compared. The rules of each indicator are
//! held in a registry keyed by indicator name; a name that the registry does
//! not hold gets the answers of the functions below for a missing entry.

use vstd::prelude::*;
use crate::model::ConditionOperator;

verus! {

/// How the value of an indicator is compared with a threshold.
#[derive(Clone, Copy, Debug, PartialEq, Eq, Structural)]
pub enum ThresholdType {
    NoThreshold,
    Absolute,
    PercentOfPrice,
}

/// Whether an indicator accepts another indicator as input, and whether it
/// may be the input of another.
#[derive(Clone, Copy, Debug, PartialEq, Eq, Structural)]
pub struct NestingConfig {
    pub accepts_input: bool,
    pub can_be_input: bool,
}

/// Whether one kind of comparison is enabled.
#[derive(Clone, Copy, Debug, PartialEq, Eq, Structural)]
pub struct CompareConfig {
    pub enabled: bool,
}

/// The build rules of one indicator.
pub struct IndicatorBuildRules {
    pub phase_1_allowed: bool,
    pub threshold_type: ThresholdType,
    pub nesting: NestingConfig,
    pub supports_percent_condition: bool,
    pub can_compare_with_input_source: bool,
    pub can_compare_with_nested_result: bool,
    pub indicator_compare: CompareConfig,
    pub price_compare: CompareConfig,
    pub allowed_conditions: Vec<ConditionOperator>,
}

/// Two rule sets say the same.
pub open spec fn same_rules(a: IndicatorBuildRules, b: IndicatorBuildRules) -> bool {
    &&& a.phase_1_allowed == b.phase_1_allowed
    &&& a.threshold_type == b.threshold_type
    &&& a.nesting == b.nesting
    &&& a.supports_percent_condition == b.supports_percent_condition
    &&& a.can_compare_with_input_source == b.can_compare_with_input_source
    &&& a.can_compare_with_nested_result == b.can_compare_with_nested_result
    &&& a.indicator_compare == b.indicator_compare
    &&& a.price_compare == b.price_compare
    &&& a.allowed_conditions@ == b.allowed_conditions@
}

impl Clone for IndicatorBuildRules {
    fn clone(&self) -> (r: Self)
        ensures
            same_rules(r, *self),
    {
        let allowed = self.allowed_conditions.clone();
        assert(allowed@ =~= self.allowed_conditions@);
        IndicatorBuildRules {
            phase_1_allowed: self.phase_1_allowed,
            threshold_type: self.threshold_type,
            nesting: self.nesting,
            supports_percent_condition: self.supports_percent_condition,
            can_compare_with_input_source: self.can_compare_with_input_source,
            can_compare_with_nested_result: self.can_compare_with_nested_result,
            indicator_compare: self.indicator_compare,
            price_compare: self.price_compare,
            allowed_conditions: allowed,
        }
    }
}

/// The rules of each known indicator, by name, and the rules that stand for
/// an unknown indicator where a full rule set is asked for.
pub struct BuildRulesRegistry {
    pub entries: Vec<(String, IndicatorBuildRules)>,
    pub default_rules: IndicatorBuildRules,
}

/// The index of the entry named `name`, the first one if several are.
pub open spec fn entry_index(entries: Seq<(String, IndicatorBuildRules)>, name: Seq<char>) -> Option<int>
    decreases entries.len(),
{
    if entries.len() == 0 {
        None
    } else {
        match entry_index(entries.drop_last(), name) {
            Some(i) => Some(i),
            None => if entries.last().0@ == name {
                Some(entries.len() - 1)
            } else {
                None
            },
        }
    }
}

/// The rules that the registry holds for `name`.
pub open spec fn lookup_rules(reg: BuildRulesRegistry, name: Seq<char>) -> Option<IndicatorBuildRules> {
    match entry_index(reg.entries@, name) {
        Some(i) => Some(reg.entries@[i].1),
        None => None,
    }
}

/// What the index of the entry named `name` means.
pub proof fn lemma_entry_index(entries: Seq<(String, IndicatorBuildRules)>, name: Seq<char>)
    ensures
        match entry_index(entries, name) {
            Some(i) => 0 <= i < entries.len() && entries[i].0@ == name && forall|j: int|
                0 <= j < i ==> (#[trigger] entries[j]).0@ != name,
            None => forall|j: int| 0 <= j < entries.len() ==> (#[trigger] entries[j]).0@ != name,
        },
    decreases entries.len(),
{
    if entries.len() > 0 {
        lemma_entry_index(entries.drop_last(), name);
        assert forall|j: int| 0 <= j < entries.len() - 1 implies entries.drop_last()[j] == entries[j] by {}
    }
}

impl BuildRulesRegistry {
    /// A registry with no entry, whose rules for an unknown indicator are
    /// `default_rules`.
    pub fn new(default_rules: IndicatorBuildRules) -> (r: BuildRulesRegistry)
        ensures
            r.entries@.len() == 0,
            r.default_rules == default_rules,
    {
        BuildRulesRegistry { entries: Vec::new(), default_rules }
    }

    /// Sets the rules of the indicator `name`, replacing those it had.
    pub fn insert(&mut self, name: String, rules: IndicatorBuildRules)
        ensures
            lookup_rules(*final(self), name@) == Some(rules),
            forall|n: Seq<char>| n != name@ ==> lookup_rules(*final(self), n) == lookup_rules(*old(self), n),
            final(self).default_rules == old(self).default_rules,
    {
        let ghost old_e = self.entries@;
        proof {
            lemma_entry_index(old_e, name@);
        }
        match find_entry(&self.entries, name.as_str()) {
            Some(i) => {
                self.entries.set(i, (name, rules));
                proof {
                    let e = self.entries@;
                    assert forall|n: Seq<char>| n != name@ implies lookup_rules(*self, n) == lookup_rules(*old(self), n) by {
                        lemma_entry_index(e, n);
                        lemma_entry_index(old_e, n);
                        assert(forall|j: int| 0 <= j < e.len() && j != i ==> e[j] == old_e[j]);
                        assert(e[i as int].0@ == old_e[i as int].0@);
                    }
                    lemma_entry_index(e, name@);
                    assert(forall|j: int| 0 <= j < e.len() && j != i ==> e[j] == old_e[j]);
                    assert(e[i as int].0@ == name@);
                    match entry_index(e, name@) {
                        Some(k) => {
                            if k < i {
                                assert(old_e[k].0@ == name@);
                            }
                            if k > i {
                                assert(e[i as int].0@ != name@);
                            }
                        },
                        None => {
                            assert(e[i as int].0@ != name@);
                        },
                    }
                }
            },
            None => {
                self.entries.push((name, rules));
                proof {
                    let e = self.entries@;
                    assert(e.drop_last() =~= old_e);
                    assert forall|n: Seq<char>| n != name@ implies lookup_rules(*self, n) == lookup_rules(*old(self), n) by {
                        lemma_entry_index(old_e, n);
                    }
                }
            },
        }
    }
}

/// The index of the first entry named `name`.
fn find_entry(entries: &Vec<(String, IndicatorBuildRules)>, name: &str) -> (r: Option<usize>)
    ensures
        match r {
            Some(i) => entry_index(entries@, name@) == Some(i as int) && i < entries@.len(),
            None => entry_index(entries@, name@) is None,
        },
{
    proof {
        lemma_entry_index(entries@, name@);
    }
    let mut i: usize = 0;
    while i < entries.len()
        invariant
            i <= entries@.len(),
            forall|j: int| 0 <= j < i ==> (#[trigger] entries@[j]).0@ != name@,
        decreases entries@.len() - i,
    {
        if crate::text::same_text(entries[i].0.as_str(), name) {
            proof {
                lemma_entry_index(entries@, name@);
                match entry_index(entries@, name@) {
                    Some(k) => {
                        if k < i {
                        } else if k > i {
                        }
                    },
                    None => {},
                }
            }
            return Some(i);
        }
        i = i + 1;
    }
    None
}

/// The rules that the registry holds for an indicator.
pub fn get_build_rules<'a>(registry: &'a BuildRulesRegistry, indicator_name: &str) -> (r: Option<
    &'a IndicatorBuildRules,
>)
    ensures
        match r {
            Some(rules) => lookup_rules(*registry, indicator_name@) == Some(*rules),
            None => lookup_rules(*registry, indicator_name@) is None,
        },
{
    match find_entry(&registry.entries, indicator_name) {
        Some(i) => Some(&registry.entries[i].1),
        None => None,
    }
}

/// The rules of an indicator, or the registry's rules for an unknown one.
pub fn get_build_rules_or_default(registry: &BuildRulesRegistry, indicator_name: &str) -> (r: IndicatorBuildRules)
    ensures
        same_rules(
            r,
            match lookup_rules(*registry, indicator_name@) {
                Some(rules) => rules,
                None => registry.default_rules,
            },
        ),
{
    match get_build_rules(registry, indicator_name) {
        Some(rules) => rules.clone(),
        None => registry.default_rules.clone(),
    }
}

/// Whether an indicator may stand in the first phase of a build; an unknown
/// one may.
pub fn is_phase_1_allowed(registry: &BuildRulesRegistry, indicator_name: &str) -> (r: bool)
    ensures
        r == match lookup_rules(*registry, indicator_name@) {
            Some(rules) => rules.phase_1_allowed,
            None => true,
        },
{
    match get_build_rules(registry, indicator_name) {
        Some(rules) => rules.phase_1_allowed,
        None => true,
    }
}

/// Whether an indicator is compared with an absolute threshold; an unknown
/// one is not.
pub fn has_absolute_threshold(registry: &BuildRulesRegistry, indicator_name: &str) -> (r: bool)
    ensures
        r == match lookup_rules(*registry, indicator_name@) {
            Some(rules) => rules.threshold_type == ThresholdType::Absolute,
            None => false,
        },
{
    match get_build_rules(registry, indicator_name) {
        Some(rules) => rules.threshold_type == ThresholdType::Absolute,
        None => false,
    }
}

/// Whether an indicator is compared with a percentage of the price; an
/// unknown one is not.
pub fn has_percent_of_price_threshold(registry: &BuildRulesRegistry, indicator_name: &str) -> (r: bool)
    ensures
        r == match lookup_rules(*registry, indicator_name@) {
            Some(rules) => rules.threshold_type == ThresholdType::PercentOfPrice,
            None => false,
        },
{
    match get_build_rules(registry, indicator_name) {
        Some(rules) => rules.threshold_type == ThresholdType::PercentOfPrice,
        None => false,
    }
}

/// Whether an indicator has no threshold; an unknown one is not said to.
pub fn has_no_threshold(registry: &BuildRulesRegistry, indicator_name: &str) -> (r: bool)
    ensures
        r == match lookup_rules(*registry, indicator_name@) {
            Some(rules) => rules.threshold_type == ThresholdType::NoThreshold,
            None => false,
        },
{
    match get_build_rules(registry, indicator_name) {
        Some(rules) => rules.threshold_type == ThresholdType::NoThreshold,
        None => false,
    }
}

/// Whether an indicator accepts another indicator as input; an unknown one
/// does not.
pub fn can_accept_nested_input(registry: &BuildRulesRegistry, indicator_name: &str) -> (r: bool)
    ensures
        r == match lookup_rules(*registry, indicator_name@) {
            Some(rules) => rules.nesting.accepts_input,
            None => false,
        },
{
    match get_build_rules(registry, indicator_name) {
        Some(rules) => rules.nesting.accepts_input,
        None => false,
    }
}

/// Whether an indicator may be the input of another; an unknown one may not.
pub fn can_be_nested_input(registry: &BuildRulesRegistry, indicator_name: &str) -> (r: bool)
    ensures
        r == match lookup_rules(*registry, indicator_name@) {
            Some(rules) => rules.nesting.can_be_input,
            None => false,
        },
{
    match get_build_rules(registry, indicator_name) {
        Some(rules) => rules.nesting.can_be_input,
        None => false,
    }
}

/// Whether an indicator admits percentage conditions; an unknown one does not.
pub fn supports_percent_condition(registry: &BuildRulesRegistry, indicator_name: &str) -> (r: bool)
    ensures
        r == match lookup_rules(*registry, indicator_name@) {
            Some(rules) => rules.supports_percent_condition,
            None => false,
        },
{
    match get_build_rules(registry, indicator_name) {
        Some(rules) => rules.supports_percent_condition,
        None => false,
    }
}

/// Whether an indicator may be compared with its input source; an unknown
/// one may not.
pub fn can_compare_with_input_source(registry: &BuildRulesRegistry, indicator_name: &str) -> (r: bool)
    ensures
        r == match lookup_rules(*registry, indicator_name@) {
            Some(rules) => rules.can_compare_with_input_source,
            None => false,
        },
{
    match get_build_rules(registry, indicator_name) {
        Some(rules) => rules.can_compare_with_input_source,
        None => false,
    }
}

/// Whether an indicator may be compared with a nested result; an unknown one
/// may not.
pub fn can_compare_with_nested_result(registry: &BuildRulesRegistry, indicator_name: &str) -> (r: bool)
    ensures
        r == match lookup_rules(*registry, indicator_name@) {
            Some(rules) => rules.can_compare_with_nested_result,
            None => false,
        },
{
    match get_build_rules(registry, indicator_name) {
        Some(rules) => rules.can_compare_with_nested_result,
        None => false,
    }
}

/// Whether an indicator may be compared with another indicator; an unknown
/// one may not.
pub fn indicator_compare_enabled(registry: &BuildRulesRegistry, indicator_name: &str) -> (r: bool)
    ensures
        r == match lookup_rules(*registry, indicator_name@) {
            Some(rules) => rules.indicator_compare.enabled,
            None => false,
        },
{
    match get_build_rules(registry, indicator_name) {
        Some(rules) => rules.indicator_compare.enabled,
        None => false,
    }
}

/// Whether an indicator may be compared with the price; an unknown one may.
pub fn price_compare_enabled(registry: &BuildRulesRegistry, indicator_name: &str) -> (r: bool)
    ensures
        r == match lookup_rules(*registry, indicator_name@) {
            Some(rules) => rules.price_compare.enabled,
            None => true,
        },
{
    match get_build_rules(registry, indicator_name) {
        Some(rules) => rules.price_compare.enabled,
        None => true,
    }
}

/// An indicator behaves like an oscillator: it has an absolute threshold
/// and may not be compared with other indicators.
pub open spec fn oscillator_like(registry: BuildRulesRegistry, name: Seq<char>) -> bool {
    match lookup_rules(registry, name) {
        Some(rules) => rules.threshold_type == ThresholdType::Absolute && !rules.indicator_compare.enabled,
        None => false,
    }
}

/// Whether an indicator behaves like an oscillator.
pub fn is_oscillator_like(registry: &BuildRulesRegistry, indicator_name: &str) -> (r: bool)
    ensures
        r == oscillator_like(*registry, indicator_name@),
{
    has_absolute_threshold(registry, indicator_name) && !indicator_compare_enabled(registry, indicator_name)
}

/// The operators that an indicator admits in conditions; for an unknown one,
/// `Above` and `Below`.
pub fn get_allowed_conditions(registry: &BuildRulesRegistry, indicator_name: &str) -> (r: Vec<ConditionOperator>)
    ensures
        r@ == match lookup_rules(*registry, indicator_name@) {
            Some(rules) => rules.allowed_conditions@,
            None => seq![ConditionOperator::Above, ConditionOperator::Below],
        },
{
    match get_build_rules(registry, indicator_name) {
        Some(rules) => {
            let v = rules.allowed_conditions.clone();
            assert(v@ =~= rules.allowed_conditions@);
            v
        },
        None => vec![ConditionOperator::Above, ConditionOperator::Below],
    }
}


/// The names of the indicators whose rules the standard table holds, in
/// the order they are registered.
pub open spec fn standard_names() -> Seq<Seq<char>> {
    seq![
        seq!['S', 'M', 'A'],
        seq!['E', 'M', 'A'],
        seq!['W', 'M', 'A'],
        seq!['A', 'M', 'A'],
        seq!['A', 'M', 'M', 'A'],
        seq!['Z', 'L', 'E', 'M', 'A'],
        seq!['S', 'I', 'N', 'E', 'W', 'M', 'A'],
        seq!['S', 'Q', 'W', 'M', 'A'],
        seq!['G', 'E', 'O', 'M', 'E', 'A', 'N'],
        seq!['T', 'P', 'B', 'F'],
        seq!['S', 'u', 'p', 'e', 'r', 'T', 'r', 'e', 'n', 'd'],
        seq!['V', 'T', 'R', 'A', 'N', 'D'],
        seq!['R', 'S', 'I'],
        seq!['S', 't', 'o', 'c', 'h', 'a', 's', 't', 'i', 'c'],
        seq!['A', 'T', 'R'],
        seq!['W', 'A', 'T', 'R'],
        seq!['T', 'r', 'u', 'e', 'R', 'a', 'n', 'g', 'e'],
    ]
}

/// The rules that the standard table gives the name: those of the first
/// entry from `k` on that has the name and rules (an indicator whose
/// construction failed has none).
pub open spec fn standard_lookup(rules: Seq<Option<IndicatorBuildRules>>, n: Seq<char>, k: int) -> Option<
    IndicatorBuildRules,
>
    decreases 17 - k,
{
    if k < 0 || k >= 17 {
        None
    } else if standard_names()[k] == n && rules[k] is Some {
        rules[k]
    } else {
        standard_lookup(rules, n, k + 1)
    }
}

/// Only the standard names have rules in the standard table.
pub proof fn law_standard_table_names(rules: Seq<Option<IndicatorBuildRules>>, n: Seq<char>, k: int)
    requires
        0 <= k,
    ensures
        standard_lookup(rules, n, k) is Some ==> standard_names().contains(n),
    decreases 17 - k,
{
    if k < 17 {
        if standard_names()[k] == n && rules[k] is Some {
            assert(standard_names()[k] == n);
        } else {
            law_standard_table_names(rules, n, k + 1);
        }
    }
}

/// The name of the standard indicator at position `i`.
fn standard_name(i: usize) -> (r: String)
    requires
        i < 17,
    ensures
        r@ == standard_names()[i as int],
{
    if i == 0 {
        proof {
            reveal_strlit("SMA");
        }
        crate::text::owned("SMA")
    } else if i == 1 {
        proof {
            reveal_strlit("EMA");
        }
        crate::text::owned("EMA")
    } else if i == 2 {
        proof {
            reveal_strlit("WMA");
        }
        crate::text::owned("WMA")
    } else if i == 3 {
        proof {
            reveal_strlit("AMA");
        }
        crate::text::owned("AMA")
    } else if i == 4 {
        proof {
            reveal_strlit("AMMA");
        }
        crate::text::owned("AMMA")
    } else if i == 5 {
        proof {
            reveal_strlit("ZLEMA");
        }
        crate::text::owned("ZLEMA")
    } else if i == 6 {
        proof {
            reveal_strlit("SINEWMA");
        }
        crate::text::owned("SINEWMA")
    } else if i == 7 {
        proof {
            reveal_strlit("SQWMA");
        }
        crate::text::owned("SQWMA")
    } else if i == 8 {
        proof {
            reveal_strlit("GEOMEAN");
        }
        crate::text::owned("GEOMEAN")
    } else if i == 9 {
        proof {
            reveal_strlit("TPBF");
        }
        crate::text::owned("TPBF")
    } else if i == 10 {
        proof {
            reveal_strlit("SuperTrend");
        }
        crate::text::owned("SuperTrend")
    } else if i == 11 {
        proof {
            reveal_strlit("VTRAND");
        }
        crate::text::owned("VTRAND")
    } else if i == 12 {
        proof {
            reveal_strlit("RSI");
        }
        crate::text::owned("RSI")
    } else if i == 13 {
        proof {
            reveal_strlit("Stochastic");
        }
        crate::text::owned("Stochastic")
    } else if i == 14 {
        proof {
            reveal_strlit("ATR");
        }
        crate::text::owned("ATR")
    } else if i == 15 {
        proof {
            reveal_strlit("WATR");
        }
        crate::text::owned("WATR")
    } else if i == 16 {
        proof {
            reveal_strlit("TrueRange");
        }
        crate::text::owned("TrueRange")
    } else {
        proof {
            reveal_strlit("TrueRange");
        }
        crate::text::owned("TrueRange")
    }
}

/// The standard table of build rules: the rules of each of the seventeen
/// standard indicators, in their order, where its construction gave rules
/// (`rules` holds them, or none, at the indicator's position), with
/// `default_rules` for any other name.
pub fn standard_registry(rules: Vec<Option<IndicatorBuildRules>>, default_rules: IndicatorBuildRules) -> (r: BuildRulesRegistry)
    requires
        rules@.len() == 17,
    ensures
        forall|n: Seq<char>| #[trigger] lookup_rules(r, n) == standard_lookup(rules@, n, 0),
        r.default_rules == default_rules,
{
    let ghost orig = rules@;
    let mut rules = rules;
    let mut r = BuildRulesRegistry::new(default_rules);
    proof {
        assert forall|n: Seq<char>| #[trigger] lookup_rules(r, n) == standard_lookup(orig, n, 17) by {
            assert(entry_index(r.entries@, n) is None);
        }
    }
    while rules.len() > 0
        invariant
            rules@.len() <= 17,
            orig.len() == 17,
            rules@ == orig.take(rules@.len() as int),
            forall|n: Seq<char>| #[trigger] lookup_rules(r, n) == standard_lookup(orig, n, rules@.len() as int),
            r.default_rules == default_rules,
        decreases rules@.len(),
    {
        let i = rules.len() - 1;
        let entry = rules.pop().unwrap();
        assert(rules@ =~= orig.take(i as int));
        assert(entry == orig[i as int]);
        let ghost before = r;
        match entry {
            Some(x) => {
                let name = standard_name(i);
                r.insert(name, x);
            },
            None => {},
        }
        assert forall|n: Seq<char>| #[trigger] lookup_rules(r, n) == standard_lookup(orig, n, i as int) by {
            assert(lookup_rules(before, n) == standard_lookup(orig, n, i + 1));
        }
    }
    r
}
} // verus!
