//! The elements of a candidate under construction, and the build rules
//! applied to them: dependencies that add required handlers, exclusions that
//! remove elements, and conditional rules.

use vstd::prelude::*;
use rand::rngs::ThreadRng;
use crate::config::{
    BuildRules, CandidateBuilderConfig, ConditionalRule, DependencyRule, ElementSelector,
    ExclusionRule, RuleAction, RuleCondition,
};
use crate::model::{
    ConditionInfo, ConditionParamInfo, IndicatorInfo, NestedIndicator, StopHandlerConfig,
    StopHandlerInfo, TimeFrame, clone_opt_string,
};
use crate::random::random_u32;
use crate::text::{decimal, owned, push_decimal, text_is};

verus! {

/// The elements chosen so far for a candidate.
pub struct CandidateElements {
    pub indicators: Vec<IndicatorInfo>,
    pub nested_indicators: Vec<NestedIndicator>,
    pub entry_conditions: Vec<ConditionInfo>,
    pub exit_conditions: Vec<ConditionInfo>,
    pub stop_handlers: Vec<StopHandlerInfo>,
    pub take_handlers: Vec<StopHandlerInfo>,
    pub timeframes: Vec<TimeFrame>,
}

/// The text "take_profit".
pub open spec fn take_profit_text() -> Seq<char> {
    seq!['t', 'a', 'k', 'e', '_', 'p', 'r', 'o', 'f', 'i', 't']
}

/// The text "stop_loss".
pub open spec fn stop_loss_text() -> Seq<char> {
    seq!['s', 't', 'o', 'p', '_', 'l', 'o', 's', 's']
}

/// Some handler in `hs` is named `name`.
pub open spec fn has_handler(hs: Seq<StopHandlerInfo>, name: Seq<char>) -> bool {
    exists|i: int| 0 <= i < hs.len() && (#[trigger] hs[i]).handler_name@ == name
}

/// Some plain or nested indicator of the candidate is named `name`.
pub open spec fn has_indicator(c: CandidateElements, name: Seq<char>) -> bool {
    (exists|i: int| 0 <= i < c.indicators@.len() && (#[trigger] c.indicators@[i]).name@ == name)
        || (exists|i: int|
        0 <= i < c.nested_indicators@.len() && (#[trigger] c.nested_indicators@[i]).indicator.name@ == name)
}

/// Some entry or exit condition of the candidate has the type `t`.
pub open spec fn has_condition_type(c: CandidateElements, t: Seq<char>) -> bool {
    (exists|i: int| 0 <= i < c.entry_conditions@.len() && (#[trigger] c.entry_conditions@[i]).condition_type@ == t)
        || (exists|i: int|
        0 <= i < c.exit_conditions@.len() && (#[trigger] c.exit_conditions@[i]).condition_type@ == t)
}

/// The candidate holds what the selector names; a timeframe selector names
/// nothing that is looked for.
pub open spec fn selector_matches(sel: ElementSelector, c: CandidateElements) -> bool {
    match sel {
        ElementSelector::StopHandler { name } => has_handler(c.stop_handlers@, name@),
        ElementSelector::TakeHandler { name } => has_handler(c.take_handlers@, name@),
        ElementSelector::Indicator { name } => has_indicator(c, name@),
        ElementSelector::Condition { condition_type } => has_condition_type(c, condition_type@),
        ElementSelector::AnyStopHandler => c.stop_handlers@.len() > 0,
        ElementSelector::AnyTakeHandler => c.take_handlers@.len() > 0,
        ElementSelector::AnyIndicator => c.indicators@.len() > 0 || c.nested_indicators@.len() > 0,
        ElementSelector::AnyCondition => c.entry_conditions@.len() > 0 || c.exit_conditions@.len() > 0,
        ElementSelector::Timeframe { .. } => false,
    }
}

/// The test of a conditional rule holds of the candidate.
pub open spec fn condition_holds(rc: RuleCondition, c: CandidateElements) -> bool {
    match rc {
        RuleCondition::And { conditions } => forall|i: int|
            0 <= i < conditions@.len() ==> selector_matches(#[trigger] conditions@[i], c),
        RuleCondition::Or { conditions } => exists|i: int|
            0 <= i < conditions@.len() && selector_matches(#[trigger] conditions@[i], c),
        RuleCondition::Not { condition } => !selector_matches(*condition, c),
        RuleCondition::Element { element } => selector_matches(element, c),
    }
}

fn any_handler_named(hs: &Vec<StopHandlerInfo>, name: &String) -> (r: bool)
    ensures
        r == has_handler(hs@, name@),
{
    let mut i: usize = 0;
    while i < hs.len()
        invariant
            i <= hs@.len(),
            forall|j: int| 0 <= j < i ==> (#[trigger] hs@[j]).handler_name@ != name@,
        decreases hs@.len() - i,
    {
        if hs[i].handler_name == *name {
            assert(hs@[i as int].handler_name@ == name@);
            return true;
        }
        i = i + 1;
    }
    false
}

fn any_condition_of_type(cs: &Vec<ConditionInfo>, t: &String) -> (r: bool)
    ensures
        r == exists|i: int| 0 <= i < cs@.len() && (#[trigger] cs@[i]).condition_type@ == t@,
{
    let mut i: usize = 0;
    while i < cs.len()
        invariant
            i <= cs@.len(),
            forall|j: int| 0 <= j < i ==> (#[trigger] cs@[j]).condition_type@ != t@,
        decreases cs@.len() - i,
    {
        if cs[i].condition_type == *t {
            assert(cs@[i as int].condition_type@ == t@);
            return true;
        }
        i = i + 1;
    }
    false
}

/// Whether the candidate holds what the selector names.
#[verifier::loop_isolation(false)]
pub fn matches_selector(selector: &ElementSelector, candidate: &CandidateElements) -> (r: bool)
    ensures
        r == selector_matches(*selector, *candidate),
{
    match selector {
        ElementSelector::StopHandler { name } => any_handler_named(&candidate.stop_handlers, name),
        ElementSelector::TakeHandler { name } => any_handler_named(&candidate.take_handlers, name),
        ElementSelector::Indicator { name } => {
            let mut i: usize = 0;
            while i < candidate.indicators.len()
                invariant
                    i <= candidate.indicators@.len(),
                    forall|j: int| 0 <= j < i ==> (#[trigger] candidate.indicators@[j]).name@ != name@,
                decreases candidate.indicators@.len() - i,
            {
                if candidate.indicators[i].name == *name {
                    assert(candidate.indicators@[i as int].name@ == name@);
                    return true;
                }
                i = i + 1;
            }
            let mut k: usize = 0;
            while k < candidate.nested_indicators.len()
                invariant
                    k <= candidate.nested_indicators@.len(),
                    forall|j: int| 0 <= j < candidate.indicators@.len() ==> (#[trigger] candidate.indicators@[j]).name@ != name@,
                    forall|j: int| 0 <= j < k ==> (#[trigger] candidate.nested_indicators@[j]).indicator.name@ != name@,
                decreases candidate.nested_indicators@.len() - k,
            {
                if candidate.nested_indicators[k].indicator.name == *name {
                    assert(candidate.nested_indicators@[k as int].indicator.name@ == name@);
                    return true;
                }
                k = k + 1;
            }
            false
        },
        ElementSelector::Condition { condition_type } => {
            any_condition_of_type(&candidate.entry_conditions, condition_type)
                || any_condition_of_type(&candidate.exit_conditions, condition_type)
        },
        ElementSelector::AnyStopHandler => candidate.stop_handlers.len() > 0,
        ElementSelector::AnyTakeHandler => candidate.take_handlers.len() > 0,
        ElementSelector::AnyIndicator => candidate.indicators.len() > 0 || candidate.nested_indicators.len() > 0,
        ElementSelector::AnyCondition => candidate.entry_conditions.len() > 0 || candidate.exit_conditions.len() > 0,
        ElementSelector::Timeframe { .. } => false,
    }
}

/// Whether the test of a conditional rule holds of the candidate.
#[verifier::loop_isolation(false)]
pub fn evaluate_condition(condition: &RuleCondition, candidate: &CandidateElements) -> (r: bool)
    ensures
        r == condition_holds(*condition, *candidate),
{
    match condition {
        RuleCondition::And { conditions } => {
            let mut i: usize = 0;
            while i < conditions.len()
                invariant
                    i <= conditions@.len(),
                    forall|j: int| 0 <= j < i ==> selector_matches(#[trigger] conditions@[j], *candidate),
                decreases conditions@.len() - i,
            {
                if !matches_selector(&conditions[i], candidate) {
                    assert(!selector_matches(conditions@[i as int], *candidate));
                    return false;
                }
                i = i + 1;
            }
            true
        },
        RuleCondition::Or { conditions } => {
            let mut i: usize = 0;
            while i < conditions.len()
                invariant
                    i <= conditions@.len(),
                    forall|j: int| 0 <= j < i ==> !selector_matches(#[trigger] conditions@[j], *candidate),
                decreases conditions@.len() - i,
            {
                if matches_selector(&conditions[i], candidate) {
                    assert(selector_matches(conditions@[i as int], *candidate));
                    return true;
                }
                i = i + 1;
            }
            false
        },
        RuleCondition::Not { condition } => !matches_selector(condition, candidate),
        RuleCondition::Element { element } => matches_selector(element, candidate),
    }
}

/// Removes the handlers named `name`, keeping the order of the others.
fn retain_handlers_not_named(v: &mut Vec<StopHandlerInfo>, name: &String)
    ensures
        final(v)@ == old(v)@.filter(|h: StopHandlerInfo| h.handler_name@ != name@),
{
    let ghost orig = v@;
    let ghost pred = |h: StopHandlerInfo| h.handler_name@ != name@;
    let mut i: usize = 0;
    let ghost mut k: int = 0;
    while i < v.len()
        invariant
            0 <= k <= orig.len(),
            i <= v@.len(),
            v@.take(i as int) == orig.take(k).filter(pred),
            v@.skip(i as int) == orig.skip(k),
            pred == (|h: StopHandlerInfo| h.handler_name@ != name@),
        decreases v@.len() - i,
    {
        proof {
            reveal_with_fuel(Seq::<_>::filter, 1);
            assert(v@.skip(i as int).len() > 0);
            assert(k < orig.len());
            assert(orig.skip(k)[0] == v@[i as int]);
            assert(orig.take(k + 1).drop_last() =~= orig.take(k));
            assert(orig.take(k + 1).last() == orig[k]);
            assert(orig[k] == v@[i as int]);
        }
        if v[i].handler_name == *name {
            let ghost before = v@;
            v.remove(i);
            proof {
                assert(v@.take(i as int) =~= before.take(i as int));
                assert(v@.skip(i as int) =~= before.skip(i + 1));
                assert(orig.skip(k + 1) =~= orig.skip(k).skip(1));
                assert(before.skip(i + 1) =~= before.skip(i as int).skip(1));
                k = k + 1;
            }
        } else {
            proof {
                assert(v@.take(i + 1) =~= v@.take(i as int).push(v@[i as int]));
                assert(v@.skip(i + 1) =~= v@.skip(i as int).skip(1));
                assert(orig.skip(k + 1) =~= orig.skip(k).skip(1));
                k = k + 1;
            }
            i = i + 1;
        }
    }
    proof {
        assert(v@.skip(i as int).len() == 0);
        assert(orig.skip(k).len() == 0);
        assert(k == orig.len());
        assert(orig.take(k) =~= orig);
        assert(v@.take(i as int) =~= v@);
    }
}

/// Removes the indicators named `name`, keeping the order of the others.
fn retain_indicators_not_named(v: &mut Vec<IndicatorInfo>, name: &String)
    ensures
        final(v)@ == old(v)@.filter(|x: IndicatorInfo| x.name@ != name@),
{
    let ghost orig = v@;
    let ghost pred = |x: IndicatorInfo| x.name@ != name@;
    let mut i: usize = 0;
    let ghost mut k: int = 0;
    while i < v.len()
        invariant
            0 <= k <= orig.len(),
            i <= v@.len(),
            v@.take(i as int) == orig.take(k).filter(pred),
            v@.skip(i as int) == orig.skip(k),
            pred == (|x: IndicatorInfo| x.name@ != name@),
        decreases v@.len() - i,
    {
        proof {
            reveal_with_fuel(Seq::<_>::filter, 1);
            assert(v@.skip(i as int).len() > 0);
            assert(k < orig.len());
            assert(orig.skip(k)[0] == v@[i as int]);
            assert(orig.take(k + 1).drop_last() =~= orig.take(k));
            assert(orig.take(k + 1).last() == orig[k]);
        }
        if v[i].name == *name {
            let ghost before = v@;
            v.remove(i);
            proof {
                assert(v@.take(i as int) =~= before.take(i as int));
                assert(v@.skip(i as int) =~= before.skip(i + 1));
                assert(orig.skip(k + 1) =~= orig.skip(k).skip(1));
                assert(before.skip(i + 1) =~= before.skip(i as int).skip(1));
                k = k + 1;
            }
        } else {
            proof {
                assert(v@.take(i + 1) =~= v@.take(i as int).push(v@[i as int]));
                assert(v@.skip(i + 1) =~= v@.skip(i as int).skip(1));
                assert(orig.skip(k + 1) =~= orig.skip(k).skip(1));
                k = k + 1;
            }
            i = i + 1;
        }
    }
    proof {
        assert(v@.skip(i as int).len() == 0);
        assert(orig.skip(k).len() == 0);
        assert(orig.take(k) =~= orig);
        assert(v@.take(i as int) =~= v@);
    }
}

/// Removes the nested indicators named `name`, keeping the order of the others.
fn retain_nested_not_named(v: &mut Vec<NestedIndicator>, name: &String)
    ensures
        final(v)@ == old(v)@.filter(|x: NestedIndicator| x.indicator.name@ != name@),
{
    let ghost orig = v@;
    let ghost pred = |x: NestedIndicator| x.indicator.name@ != name@;
    let mut i: usize = 0;
    let ghost mut k: int = 0;
    while i < v.len()
        invariant
            0 <= k <= orig.len(),
            i <= v@.len(),
            v@.take(i as int) == orig.take(k).filter(pred),
            v@.skip(i as int) == orig.skip(k),
            pred == (|x: NestedIndicator| x.indicator.name@ != name@),
        decreases v@.len() - i,
    {
        proof {
            reveal_with_fuel(Seq::<_>::filter, 1);
            assert(v@.skip(i as int).len() > 0);
            assert(k < orig.len());
            assert(orig.skip(k)[0] == v@[i as int]);
            assert(orig.take(k + 1).drop_last() =~= orig.take(k));
            assert(orig.take(k + 1).last() == orig[k]);
        }
        if v[i].indicator.name == *name {
            let ghost before = v@;
            v.remove(i);
            proof {
                assert(v@.take(i as int) =~= before.take(i as int));
                assert(v@.skip(i as int) =~= before.skip(i + 1));
                assert(orig.skip(k + 1) =~= orig.skip(k).skip(1));
                assert(before.skip(i + 1) =~= before.skip(i as int).skip(1));
                k = k + 1;
            }
        } else {
            proof {
                assert(v@.take(i + 1) =~= v@.take(i as int).push(v@[i as int]));
                assert(v@.skip(i + 1) =~= v@.skip(i as int).skip(1));
                assert(orig.skip(k + 1) =~= orig.skip(k).skip(1));
                k = k + 1;
            }
            i = i + 1;
        }
    }
    proof {
        assert(v@.skip(i as int).len() == 0);
        assert(orig.skip(k).len() == 0);
        assert(orig.take(k) =~= orig);
        assert(v@.take(i as int) =~= v@);
    }
}

/// What removing the element named by a selector does: handlers and
/// indicators of that name leave, in order; other selectors change nothing.
pub open spec fn removed(sel: ElementSelector, before: CandidateElements, after: CandidateElements) -> bool {
    match sel {
        ElementSelector::TakeHandler { name } => {
            &&& after.take_handlers@ == before.take_handlers@.filter(|h: StopHandlerInfo| h.handler_name@ != name@)
            &&& after.stop_handlers == before.stop_handlers
            &&& after.indicators == before.indicators
            &&& after.nested_indicators == before.nested_indicators
            &&& after.entry_conditions == before.entry_conditions
            &&& after.exit_conditions == before.exit_conditions
            &&& after.timeframes == before.timeframes
        },
        ElementSelector::StopHandler { name } => {
            &&& after.stop_handlers@ == before.stop_handlers@.filter(|h: StopHandlerInfo| h.handler_name@ != name@)
            &&& after.take_handlers == before.take_handlers
            &&& after.indicators == before.indicators
            &&& after.nested_indicators == before.nested_indicators
            &&& after.entry_conditions == before.entry_conditions
            &&& after.exit_conditions == before.exit_conditions
            &&& after.timeframes == before.timeframes
        },
        ElementSelector::Indicator { name } => {
            &&& after.indicators@ == before.indicators@.filter(|x: IndicatorInfo| x.name@ != name@)
            &&& after.nested_indicators@ == before.nested_indicators@.filter(
                |x: NestedIndicator| x.indicator.name@ != name@,
            )
            &&& after.stop_handlers == before.stop_handlers
            &&& after.take_handlers == before.take_handlers
            &&& after.entry_conditions == before.entry_conditions
            &&& after.exit_conditions == before.exit_conditions
            &&& after.timeframes == before.timeframes
        },
        _ => after == before,
    }
}

/// After removing what a handler or indicator selector names, the
/// candidate no longer holds it.
pub proof fn law_removed_no_longer_matches(sel: ElementSelector, before: CandidateElements, after: CandidateElements)
    requires
        removed(sel, before, after),
        sel is TakeHandler || sel is StopHandler || sel is Indicator,
    ensures
        !selector_matches(sel, after),
{
    broadcast use vstd::seq_lib::group_filter_ensures;

    match sel {
        ElementSelector::TakeHandler { name } => {
            assert forall|i: int| 0 <= i < after.take_handlers@.len() implies (#[trigger] after.take_handlers@[i]).handler_name@
                != name@ by {}
        },
        ElementSelector::StopHandler { name } => {
            assert forall|i: int| 0 <= i < after.stop_handlers@.len() implies (#[trigger] after.stop_handlers@[i]).handler_name@
                != name@ by {}
        },
        ElementSelector::Indicator { name } => {
            assert forall|i: int| 0 <= i < after.indicators@.len() implies (#[trigger] after.indicators@[i]).name@ != name@ by {}
            assert forall|i: int| 0 <= i < after.nested_indicators@.len() implies (
            #[trigger] after.nested_indicators@[i]).indicator.name@ != name@ by {}
        },
        _ => {},
    }
}

/// Removes from the candidate the handlers or indicators that the selector
/// names; other selectors leave it as it is.
pub fn remove_excluded_element(selector: &ElementSelector, candidate: &mut CandidateElements)
    ensures
        removed(*selector, *old(candidate), *final(candidate)),
{
    match selector {
        ElementSelector::TakeHandler { name } => {
            retain_handlers_not_named(&mut candidate.take_handlers, name);
        },
        ElementSelector::StopHandler { name } => {
            retain_handlers_not_named(&mut candidate.stop_handlers, name);
        },
        ElementSelector::Indicator { name } => {
            retain_indicators_not_named(&mut candidate.indicators, name);
            retain_nested_not_named(&mut candidate.nested_indicators, name);
        },
        _ => {},
    }
}

/// The parameter that a handler configuration contributes.
pub open spec fn param_of(c: StopHandlerConfig) -> ConditionParamInfo {
    ConditionParamInfo {
        name: c.parameter_name,
        optimizable: true,
        mutatable: true,
        global_param_name: c.global_param_name,
    }
}

/// The parameters of the handler `cfg`: one for each configuration among
/// `all` with the same handler name and stop type and a parameter name, in
/// order.
pub open spec fn handler_params(cfg: StopHandlerConfig, all: Seq<StopHandlerConfig>) -> Seq<ConditionParamInfo>
    decreases all.len(),
{
    if all.len() == 0 {
        Seq::empty()
    } else {
        let rest = handler_params(cfg, all.drop_last());
        let c = all.last();
        if c.handler_name@ == cfg.handler_name@ && c.stop_type@ == cfg.stop_type@ && c.parameter_name@.len() > 0 {
            rest.push(param_of(c))
        } else {
            rest
        }
    }
}

/// The optimisation parameters of a handler, gathered from every
/// configuration of that handler and stop type that names a parameter.
pub fn make_handler_params(config: &StopHandlerConfig, all_configs: &[StopHandlerConfig]) -> (r: Vec<ConditionParamInfo>)
    ensures
        r@ == handler_params(*config, all_configs@),
{
    let mut params: Vec<ConditionParamInfo> = Vec::new();
    let mut i: usize = 0;
    while i < all_configs.len()
        invariant
            i <= all_configs@.len(),
            params@ == handler_params(*config, all_configs@.take(i as int)),
        decreases all_configs@.len() - i,
    {
        let cfg = &all_configs[i];
        proof {
            assert(all_configs@.take(i + 1).drop_last() =~= all_configs@.take(i as int));
            assert(all_configs@.take(i + 1).last() == all_configs@[i as int]);
        }
        if cfg.handler_name == config.handler_name && cfg.stop_type == config.stop_type
            && !cfg.parameter_name.as_str().is_empty() {
            params.push(
                ConditionParamInfo {
                    name: cfg.parameter_name.clone(),
                    optimizable: true,
                    mutatable: true,
                    global_param_name: clone_opt_string(&cfg.global_param_name),
                },
            );
        }
        i = i + 1;
    }
    assert(all_configs@.take(all_configs@.len() as int) =~= all_configs@);
    params
}

} // verus!

verus! {

/// The index of the first configuration of the handler `name` with the stop
/// type `kind`.
pub open spec fn first_config(all: Seq<StopHandlerConfig>, name: Seq<char>, kind: Seq<char>) -> Option<int>
    decreases all.len(),
{
    if all.len() == 0 {
        None
    } else {
        match first_config(all.drop_last(), name, kind) {
            Some(i) => Some(i),
            None => if all.last().handler_name@ == name && all.last().stop_type@ == kind {
                Some(all.len() - 1)
            } else {
                None
            },
        }
    }
}

/// What the first configuration of a handler means.
pub proof fn lemma_first_config(all: Seq<StopHandlerConfig>, name: Seq<char>, kind: Seq<char>)
    ensures
        match first_config(all, name, kind) {
            Some(i) => 0 <= i < all.len() && all[i].handler_name@ == name && all[i].stop_type@ == kind
                && forall|j: int| 0 <= j < i ==> !((#[trigger] all[j]).handler_name@ == name && all[j].stop_type@ == kind),
            None => forall|j: int| 0 <= j < all.len() ==> !((#[trigger] all[j]).handler_name@ == name && all[j].stop_type@ == kind),
        },
    decreases all.len(),
{
    if all.len() > 0 {
        lemma_first_config(all.drop_last(), name, kind);
        assert forall|j: int| 0 <= j < all.len() - 1 implies all.drop_last()[j] == all[j] by {}
    }
}

fn find_config(all: &[StopHandlerConfig], name: &String, kind: &Vec<char>) -> (r: Option<usize>)
    ensures
        match r {
            Some(i) => first_config(all@, name@, kind@) == Some(i as int) && i < all@.len(),
            None => first_config(all@, name@, kind@) is None,
        },
{
    proof {
        lemma_first_config(all@, name@, kind@);
    }
    let mut i: usize = 0;
    while i < all.len()
        invariant
            i <= all@.len(),
            forall|j: int| 0 <= j < i ==> !((#[trigger] all@[j]).handler_name@ == name@ && all@[j].stop_type@ == kind@),
        decreases all@.len() - i,
    {
        if all[i].handler_name == *name && text_is(all[i].stop_type.as_str(), kind) {
            proof {
                lemma_first_config(all@, name@, kind@);
                match first_config(all@, name@, kind@) {
                    Some(k) => {
                        if k < i {
                        } else if k > i {
                        }
                    },
                    None => {},
                }
            }
            return Some(i);
        }
        i = i + 1;
    }
    None
}

/// The text "take_".
pub open spec fn take_head() -> Seq<char> {
    seq!['t', 'a', 'k', 'e', '_']
}

/// The text "stop_".
pub open spec fn stop_head() -> Seq<char> {
    seq!['s', 't', 'o', 'p', '_']
}

/// A handler added because a rule requires the handler `name` of the stop
/// type `kind`: its identifier is `id_head` and a random number; it copies
/// the first matching configuration among `all`, with that configuration's
/// parameters, or, when there is none, it is named `name` with no parameter
/// and priority 100.
pub open spec fn made_handler(
    h: StopHandlerInfo,
    name: Seq<char>,
    all: Seq<StopHandlerConfig>,
    kind: Seq<char>,
    id_head: Seq<char>,
) -> bool {
    &&& exists|r: u32| h.id@ == id_head + decimal(r as nat)
    &&& match first_config(all, name, kind) {
        Some(i) => {
            &&& h.name@ == all[i].handler_name@
            &&& h.handler_name@ == all[i].handler_name@
            &&& h.stop_type@ == all[i].stop_type@
            &&& h.optimization_params@ == handler_params(all[i], all)
            &&& h.priority == all[i].priority
        },
        None => {
            &&& h.name@ == name
            &&& h.handler_name@ == name
            &&& h.stop_type@ == kind
            &&& h.optimization_params@.len() == 0
            &&& h.priority == 100
        },
    }
}

/// The candidate differs from another one in its take handlers alone.
pub open spec fn same_but_takes(a: CandidateElements, b: CandidateElements) -> bool {
    &&& a.stop_handlers == b.stop_handlers
    &&& a.indicators == b.indicators
    &&& a.nested_indicators == b.nested_indicators
    &&& a.entry_conditions == b.entry_conditions
    &&& a.exit_conditions == b.exit_conditions
    &&& a.timeframes == b.timeframes
}

/// The candidate differs from another one in its stop handlers alone.
pub open spec fn same_but_stops(a: CandidateElements, b: CandidateElements) -> bool {
    &&& a.take_handlers == b.take_handlers
    &&& a.indicators == b.indicators
    &&& a.nested_indicators == b.nested_indicators
    &&& a.entry_conditions == b.entry_conditions
    &&& a.exit_conditions == b.exit_conditions
    &&& a.timeframes == b.timeframes
}

/// What adding a required element does: a take handler is appended unless
/// the candidate is at its limit of take handlers or holds one of that name;
/// a stop handler is appended unless the candidate holds one of that name;
/// other selectors change nothing.
pub open spec fn required_added(
    sel: ElementSelector,
    before: CandidateElements,
    after: CandidateElements,
    all: Seq<StopHandlerConfig>,
    max_take: usize,
) -> bool {
    match sel {
        ElementSelector::TakeHandler { name } => if before.take_handlers@.len() >= max_take
            || has_handler(before.take_handlers@, name@) {
            after == before
        } else {
            &&& after.take_handlers@.len() == before.take_handlers@.len() + 1
            &&& after.take_handlers@.drop_last() == before.take_handlers@
            &&& made_handler(after.take_handlers@.last(), name@, all, take_profit_text(), take_head())
            &&& same_but_takes(after, before)
        },
        ElementSelector::StopHandler { name } => if has_handler(before.stop_handlers@, name@) {
            after == before
        } else {
            &&& after.stop_handlers@.len() == before.stop_handlers@.len() + 1
            &&& after.stop_handlers@.drop_last() == before.stop_handlers@
            &&& made_handler(after.stop_handlers@.last(), name@, all, stop_loss_text(), stop_head())
            &&& same_but_stops(after, before)
        },
        _ => after == before,
    }
}

/// Once a required stop handler is added, the candidate holds it; so does
/// it hold a required take handler, unless it was at its limit of take
/// handlers without it.
pub proof fn law_required_then_matches(
    sel: ElementSelector,
    before: CandidateElements,
    after: CandidateElements,
    all: Seq<StopHandlerConfig>,
    max_take: usize,
)
    requires
        required_added(sel, before, after, all, max_take),
        sel is StopHandler || (sel is TakeHandler && (before.take_handlers@.len() < max_take || selector_matches(
            sel,
            before,
        ))),
    ensures
        selector_matches(sel, after),
{
    match sel {
        ElementSelector::TakeHandler { name } => {
            if !has_handler(before.take_handlers@, name@) {
                let hs = after.take_handlers@;
                lemma_first_config(all, name@, take_profit_text());
                assert(hs[hs.len() - 1].handler_name@ == name@);
            }
        },
        ElementSelector::StopHandler { name } => {
            if !has_handler(before.stop_handlers@, name@) {
                let hs = after.stop_handlers@;
                lemma_first_config(all, name@, stop_loss_text());
                assert(hs[hs.len() - 1].handler_name@ == name@);
            }
        },
        _ => {},
    }
}

/// A new handler for a rule that requires `name` with the stop type `kind`.
fn make_required_handler(
    name: &String,
    available: &[StopHandlerConfig],
    kind: &Vec<char>,
    kind_str: &str,
    head: &str,
    rng: &mut ThreadRng,
) -> (h: StopHandlerInfo)
    requires
        kind_str@ == kind@,
    ensures
        made_handler(h, name@, available@, kind@, head@),
{
    let random = random_u32(rng);
    let mut id = owned(head);
    push_decimal(&mut id, random as u64);
    match find_config(available, name, kind) {
        Some(i) => {
            let item = &available[i];
            StopHandlerInfo {
                id,
                name: item.handler_name.clone(),
                handler_name: item.handler_name.clone(),
                stop_type: item.stop_type.clone(),
                optimization_params: make_handler_params(item, available),
                priority: item.priority,
            }
        },
        None => StopHandlerInfo {
            id,
            name: name.clone(),
            handler_name: name.clone(),
            stop_type: owned(kind_str),
            optimization_params: Vec::new(),
            priority: 100,
        },
    }
}

/// Adds the handler that a rule requires, if the candidate lacks it: a take
/// handler only below the limit of take handlers. The new handler copies the
/// first configuration offered for that name and stop type, or is built from
/// the name alone when none is.
pub fn add_required_element(
    selector: &ElementSelector,
    candidate: &mut CandidateElements,
    available_stop_handlers: &[StopHandlerConfig],
    config: &CandidateBuilderConfig,
    rng: &mut ThreadRng,
)
    ensures
        required_added(
            *selector,
            *old(candidate),
            *final(candidate),
            available_stop_handlers@,
            config.constraints.max_take_handlers,
        ),
{
    proof {
        reveal_strlit("take_profit");
        reveal_strlit("stop_loss");
        reveal_strlit("take_");
        reveal_strlit("stop_");
    }
    match selector {
        ElementSelector::TakeHandler { name } => {
            if candidate.take_handlers.len() >= config.constraints.max_take_handlers {
                return;
            }
            if any_handler_named(&candidate.take_handlers, name) {
                return;
            }
            let kind: Vec<char> = vec!['t', 'a', 'k', 'e', '_', 'p', 'r', 'o', 'f', 'i', 't'];
            assert(kind@ =~= take_profit_text());
            proof {
                reveal_strlit("take_profit");
                reveal_strlit("take_");
            }
            assert("take_profit"@ =~= kind@);
            let h = make_required_handler(name, available_stop_handlers, &kind, "take_profit", "take_", rng);
            assert("take_"@ =~= take_head());
            assert(made_handler(h, name@, available_stop_handlers@, take_profit_text(), take_head()));
            let ghost before = candidate.take_handlers@;
            candidate.take_handlers.push(h);
            assert(candidate.take_handlers@.drop_last() =~= before);
            assert(candidate.take_handlers@.last() == h);
        },
        ElementSelector::StopHandler { name } => {
            if any_handler_named(&candidate.stop_handlers, name) {
                return;
            }
            let kind: Vec<char> = vec!['s', 't', 'o', 'p', '_', 'l', 'o', 's', 's'];
            assert(kind@ =~= stop_loss_text());
            proof {
                reveal_strlit("stop_loss");
                reveal_strlit("stop_");
            }
            assert("stop_loss"@ =~= kind@);
            let h = make_required_handler(name, available_stop_handlers, &kind, "stop_loss", "stop_", rng);
            assert("stop_"@ =~= stop_head());
            let ghost before = candidate.stop_handlers@;
            candidate.stop_handlers.push(h);
            assert(candidate.stop_handlers@.drop_last() =~= before);
        },
        _ => {},
    }
}

/// What a conditional rule's action does to the candidate.
pub open spec fn action_applied(
    a: RuleAction,
    before: CandidateElements,
    after: CandidateElements,
    all: Seq<StopHandlerConfig>,
    max_take: usize,
) -> bool {
    match a {
        RuleAction::Require { element, strict } => if !selector_matches(element, before) && strict {
            required_added(element, before, after, all, max_take)
        } else {
            after == before
        },
        RuleAction::Exclude { element } => removed(element, before, after),
        RuleAction::SetProbability { .. } => after == before,
    }
}

/// Applies the action of a conditional rule: a strict requirement adds the
/// element if it is missing, an exclusion removes it, and a probability
/// setting changes nothing.
pub fn apply_action(
    action: &RuleAction,
    candidate: &mut CandidateElements,
    available_stop_handlers: &[StopHandlerConfig],
    config: &CandidateBuilderConfig,
    rng: &mut ThreadRng,
)
    ensures
        action_applied(
            *action,
            *old(candidate),
            *final(candidate),
            available_stop_handlers@,
            config.constraints.max_take_handlers,
        ),
{
    match action {
        RuleAction::Require { element, strict } => {
            if !matches_selector(element, candidate) {
                if *strict {
                    add_required_element(element, candidate, available_stop_handlers, config, rng);
                }
            }
        },
        RuleAction::Exclude { element } => {
            remove_excluded_element(element, candidate);
        },
        RuleAction::SetProbability { .. } => {},
    }
}

/// One dependency rule applied: if the trigger is present and the required
/// element missing, a strict rule adds it.
pub open spec fn dependency_step(
    d: DependencyRule,
    before: CandidateElements,
    after: CandidateElements,
    all: Seq<StopHandlerConfig>,
    max_take: usize,
) -> bool {
    if selector_matches(d.trigger, before) && !selector_matches(d.required, before) && d.strict {
        required_added(d.required, before, after, all, max_take)
    } else {
        after == before
    }
}

/// One exclusion rule applied: if its element is present, the excluded one
/// is removed.
pub open spec fn exclusion_step(e: ExclusionRule, before: CandidateElements, after: CandidateElements) -> bool {
    if selector_matches(e.element, before) {
        removed(e.excluded, before, after)
    } else {
        after == before
    }
}

/// One conditional rule applied: if its test holds, its action is.
pub open spec fn conditional_step(
    r: ConditionalRule,
    before: CandidateElements,
    after: CandidateElements,
    all: Seq<StopHandlerConfig>,
    max_take: usize,
) -> bool {
    if condition_holds(r.condition, before) {
        action_applied(r.action, before, after, all, max_take)
    } else {
        after == before
    }
}

/// A sequence of states takes the candidate through the dependency rules,
/// then the exclusion rules, then the conditional rules, one rule per step
/// and in their order.
pub open spec fn rules_trace(
    rules: BuildRules,
    t: Seq<CandidateElements>,
    all: Seq<StopHandlerConfig>,
    max_take: usize,
) -> bool {
    let nd = rules.dependencies@.len() as int;
    let ne = rules.exclusions@.len() as int;
    let nc = rules.conditions@.len() as int;
    &&& t.len() == nd + ne + nc + 1
    &&& forall|k: int| 0 <= k < nd ==> dependency_step(#[trigger] rules.dependencies@[k], t[k], t[k + 1], all, max_take)
    &&& forall|k: int| 0 <= k < ne ==> exclusion_step(#[trigger] rules.exclusions@[k], t[nd + k], t[nd + k + 1])
    &&& forall|k: int|
        0 <= k < nc ==> conditional_step(#[trigger] rules.conditions@[k], t[nd + ne + k], t[nd + ne + k + 1], all, max_take)
}

/// Applies the build rules to the candidate: each dependency rule in order,
/// then each exclusion rule, then each conditional rule, each to the
/// candidate as the previous ones left it.
pub fn apply_rules(
    candidate: &mut CandidateElements,
    available_stop_handlers: &[StopHandlerConfig],
    rules: &BuildRules,
    config: &CandidateBuilderConfig,
    rng: &mut ThreadRng,
)
    ensures
        exists|t: Seq<CandidateElements>|
            rules_trace(*rules, t, available_stop_handlers@, config.constraints.max_take_handlers)
                && t[0] == *old(candidate) && t.last() == *final(candidate),
{
    let ghost all = available_stop_handlers@;
    let ghost mt = config.constraints.max_take_handlers;
    let ghost nd = rules.dependencies@.len() as int;
    let ghost ne = rules.exclusions@.len() as int;
    let ghost mut t: Seq<CandidateElements> = seq![*candidate];
    let mut i: usize = 0;
    while i < rules.dependencies.len()
        invariant
            all == available_stop_handlers@,
            mt == config.constraints.max_take_handlers,
            nd == rules.dependencies@.len(),
            i <= nd,
            t.len() == i + 1,
            t[0] == *old(candidate),
            t.last() == *candidate,
            forall|k: int| 0 <= k < i ==> dependency_step(#[trigger] rules.dependencies@[k], t[k], t[k + 1], all, mt),
        decreases nd - i,
    {
        let dependency = &rules.dependencies[i];
        let ghost before = *candidate;
        if matches_selector(&dependency.trigger, candidate) {
            if !matches_selector(&dependency.required, candidate) {
                if dependency.strict {
                    add_required_element(&dependency.required, candidate, available_stop_handlers, config, rng);
                }
            }
        }
        proof {
            let t0 = t;
            t = t.push(*candidate);
            assert forall|k: int| 0 <= k < i + 1 implies dependency_step(#[trigger] rules.dependencies@[k], t[k], t[k + 1], all, mt) by {
                if k < i {
                    assert(t[k] == t0[k]);
                    assert(t[k + 1] == t0[k + 1]);
                }
            }
        }
        i = i + 1;
    }
    let mut j: usize = 0;
    while j < rules.exclusions.len()
        invariant
            all == available_stop_handlers@,
            mt == config.constraints.max_take_handlers,
            nd == rules.dependencies@.len(),
            ne == rules.exclusions@.len(),
            j <= ne,
            t.len() == nd + j + 1,
            t[0] == *old(candidate),
            t.last() == *candidate,
            forall|k: int| 0 <= k < nd ==> dependency_step(#[trigger] rules.dependencies@[k], t[k], t[k + 1], all, mt),
            forall|k: int| 0 <= k < j ==> exclusion_step(#[trigger] rules.exclusions@[k], t[nd + k], t[nd + k + 1]),
        decreases ne - j,
    {
        let exclusion = &rules.exclusions[j];
        if matches_selector(&exclusion.element, candidate) {
            remove_excluded_element(&exclusion.excluded, candidate);
        }
        proof {
            let t0 = t;
            t = t.push(*candidate);
            assert forall|k: int| 0 <= k < nd implies dependency_step(#[trigger] rules.dependencies@[k], t[k], t[k + 1], all, mt) by {
                assert(t[k] == t0[k]);
                assert(t[k + 1] == t0[k + 1]);
            }
            assert forall|k: int| 0 <= k < j + 1 implies exclusion_step(#[trigger] rules.exclusions@[k], t[nd + k], t[nd + k + 1]) by {
                if k < j {
                    assert(t[nd + k] == t0[nd + k]);
                    assert(t[nd + k + 1] == t0[nd + k + 1]);
                }
            }
        }
        j = j + 1;
    }
    let mut m: usize = 0;
    while m < rules.conditions.len()
        invariant
            all == available_stop_handlers@,
            mt == config.constraints.max_take_handlers,
            nd == rules.dependencies@.len(),
            ne == rules.exclusions@.len(),
            m <= rules.conditions@.len(),
            t.len() == nd + ne + m + 1,
            t[0] == *old(candidate),
            t.last() == *candidate,
            forall|k: int| 0 <= k < nd ==> dependency_step(#[trigger] rules.dependencies@[k], t[k], t[k + 1], all, mt),
            forall|k: int| 0 <= k < ne ==> exclusion_step(#[trigger] rules.exclusions@[k], t[nd + k], t[nd + k + 1]),
            forall|k: int|
                0 <= k < m ==> conditional_step(#[trigger] rules.conditions@[k], t[nd + ne + k], t[nd + ne + k + 1], all, mt),
        decreases rules.conditions@.len() - m,
    {
        let conditional = &rules.conditions[m];
        if evaluate_condition(&conditional.condition, candidate) {
            apply_action(&conditional.action, candidate, available_stop_handlers, config, rng);
        }
        proof {
            let t0 = t;
            t = t.push(*candidate);
            assert forall|k: int| 0 <= k < nd implies dependency_step(#[trigger] rules.dependencies@[k], t[k], t[k + 1], all, mt) by {
                assert(t[k] == t0[k]);
                assert(t[k + 1] == t0[k + 1]);
            }
            assert forall|k: int| 0 <= k < ne implies exclusion_step(#[trigger] rules.exclusions@[k], t[nd + k], t[nd + k + 1]) by {
                assert(t[nd + k] == t0[nd + k]);
                assert(t[nd + k + 1] == t0[nd + k + 1]);
            }
            assert forall|k: int| 0 <= k < m + 1 implies conditional_step(#[trigger] rules.conditions@[k], t[nd + ne + k], t[nd + ne + k + 1], all, mt) by {
                if k < m {
                    assert(t[nd + ne + k] == t0[nd + ne + k]);
                    assert(t[nd + ne + k + 1] == t0[nd + ne + k + 1]);
                }
            }
        }
        m = m + 1;
    }
    assert(rules_trace(*rules, t, all, mt));
}

/// A condition selector looks at the entry and the exit conditions alike: it
/// matches a candidate exactly when some entry condition or some exit
/// condition has the named type, and a rule whose test is that selector
/// holds then too.
pub proof fn law_condition_selector_sees_entry_and_exit(t: String, c: CandidateElements)
    ensures
        selector_matches(ElementSelector::Condition { condition_type: t }, c) <==> (exists|i: int|
            0 <= i < c.entry_conditions@.len() && (#[trigger] c.entry_conditions@[i]).condition_type@ == t@) || (
        exists|j: int| 0 <= j < c.exit_conditions@.len() && (#[trigger] c.exit_conditions@[j]).condition_type@ == t@),
        condition_holds(RuleCondition::Element { element: ElementSelector::Condition { condition_type: t } }, c)
            <==> selector_matches(ElementSelector::Condition { condition_type: t }, c),
{
}

/// A candidate whose only condition of type `t` is the exit condition at
/// `j` still matches the condition selector for `t`.
pub proof fn law_exit_condition_matches_selector(t: String, c: CandidateElements, j: int)
    requires
        0 <= j < c.exit_conditions@.len(),
        c.exit_conditions@[j].condition_type@ == t@,
    ensures
        selector_matches(ElementSelector::Condition { condition_type: t }, c),
        condition_holds(RuleCondition::Element { element: ElementSelector::Condition { condition_type: t } }, c),
{
    law_condition_selector_sees_entry_and_exit(t, c);
}

/// What each of the other selectors looks at: an indicator selector at the
/// plain and the nested indicators, a stop handler selector at the stop
/// handlers only, a take handler selector at the take handlers only; the
/// "any" selectors at whether there is any such element; a timeframe
/// selector never matches.
pub proof fn law_selector_meanings(name: String, c: CandidateElements)
    ensures
        selector_matches(ElementSelector::Indicator { name: name }, c) <==> (exists|i: int|
            0 <= i < c.indicators@.len() && (#[trigger] c.indicators@[i]).name@ == name@) || (exists|j: int|
            0 <= j < c.nested_indicators@.len() && (#[trigger] c.nested_indicators@[j]).indicator.name@ == name@),
        selector_matches(ElementSelector::StopHandler { name: name }, c) <==> exists|i: int|
            0 <= i < c.stop_handlers@.len() && (#[trigger] c.stop_handlers@[i]).handler_name@ == name@,
        selector_matches(ElementSelector::TakeHandler { name: name }, c) <==> exists|i: int|
            0 <= i < c.take_handlers@.len() && (#[trigger] c.take_handlers@[i]).handler_name@ == name@,
        selector_matches(ElementSelector::AnyIndicator, c) <==> c.indicators@.len() + c.nested_indicators@.len() > 0,
        selector_matches(ElementSelector::AnyStopHandler, c) <==> c.stop_handlers@.len() > 0,
        selector_matches(ElementSelector::AnyTakeHandler, c) <==> c.take_handlers@.len() > 0,
        selector_matches(ElementSelector::AnyCondition, c) <==> c.entry_conditions@.len()
            + c.exit_conditions@.len() > 0,
        !selector_matches(ElementSelector::Timeframe { timeframe: name }, c),
{
}

/// How a rule's test combines selectors: "and" holds when every selector
/// of its list matches (so an empty list holds), "or" when some selector
/// matches (so an empty list does not hold), "not" when its selector does
/// not match, and a single element when it matches.
pub proof fn law_rule_test_combinators(sels: Vec<ElementSelector>, sel: ElementSelector, c: CandidateElements)
    ensures
        condition_holds(RuleCondition::And { conditions: sels }, c) <==> forall|i: int|
            0 <= i < sels@.len() ==> selector_matches(#[trigger] sels@[i], c),
        condition_holds(RuleCondition::Or { conditions: sels }, c) <==> exists|i: int|
            0 <= i < sels@.len() && selector_matches(#[trigger] sels@[i], c),
        sels@.len() == 0 ==> condition_holds(RuleCondition::And { conditions: sels }, c) && !condition_holds(
            RuleCondition::Or { conditions: sels },
            c,
        ),
        condition_holds(RuleCondition::Not { condition: Box::new(sel) }, c) <==> !selector_matches(sel, c),
        condition_holds(RuleCondition::Element { element: sel }, c) <==> selector_matches(sel, c),
{
    let and = RuleCondition::And { conditions: sels };
    let or = RuleCondition::Or { conditions: sels };
    if condition_holds(and, c) {
        assert forall|i: int| 0 <= i < sels@.len() implies selector_matches(#[trigger] sels@[i], c) by {
            assert(selector_matches(and->And_conditions@[i], c));
        }
    }
    if forall|i: int| 0 <= i < sels@.len() ==> selector_matches(#[trigger] sels@[i], c) {
        assert forall|i: int| 0 <= i < and->And_conditions@.len() implies selector_matches(
            #[trigger] and->And_conditions@[i],
            c,
        ) by {
            assert(selector_matches(sels@[i], c));
        }
    }
    if condition_holds(or, c) {
        let i = choose|i: int| 0 <= i < or->Or_conditions@.len() && selector_matches(#[trigger] or->Or_conditions@[i], c);
        assert(selector_matches(sels@[i], c));
    }
    if exists|i: int| 0 <= i < sels@.len() && selector_matches(#[trigger] sels@[i], c) {
        let i = choose|i: int| 0 <= i < sels@.len() && selector_matches(#[trigger] sels@[i], c);
        assert(selector_matches(or->Or_conditions@[i], c));
    }
}

/// Adding a required element twice does no more than adding it once: the
/// second time the candidate already holds it (or is at its limit), and is
/// left as it is; a candidate that already holds it is never changed.
pub proof fn law_required_idempotent(
    sel: ElementSelector,
    c0: CandidateElements,
    c1: CandidateElements,
    c2: CandidateElements,
    all: Seq<StopHandlerConfig>,
    max_take: usize,
)
    requires
        required_added(sel, c0, c1, all, max_take),
        required_added(sel, c1, c2, all, max_take),
    ensures
        c2 == c1,
        selector_matches(sel, c0) ==> c1 == c0,
{
    match sel {
        ElementSelector::TakeHandler { name } => {
            if !(c0.take_handlers@.len() >= max_take || has_handler(c0.take_handlers@, name@)) {
                law_required_then_matches(sel, c0, c1, all, max_take);
            }
        },
        ElementSelector::StopHandler { name } => {
            law_required_then_matches(sel, c0, c1, all, max_take);
        },
        _ => {},
    }
}

} // verus!
