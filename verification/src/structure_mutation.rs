//! The structural mutation of a candidate as a whole: its indicators, entry
//! and exit conditions, stop handlers, nested indicators, take handlers and
//! timeframes, each step taken with the probability of the mutation rate.

use vstd::prelude::*;
use rand::rngs::ThreadRng;
use crate::build_rules::BuildRulesRegistry;
use crate::condition_builder::{create_condition_for_indicator_with_draws, created_condition_on, CreateDraws};
use crate::genetic::{get_safe_flipped_operator, pruned, remove_conditions_with_indicator, remove_unused_indicators, safe_flip};
use crate::model::{
    condition_aliases, ConditionInfo, ConditionKind, ConditionOperator, IndicatorInfo, StopHandlerConfig, StrategyCandidate,
    StrategyCandidateView, TimeFrame,
};
use crate::mutation::{
    apply_nested_mutation, apply_stop_mutation, apply_take_mutation, apply_timeframe_mutation, can_add_take,
    can_remove_stop, can_remove_take, handler_mutation_on, nested_mutation_on, timeframe_mutation_on, type_positions,
    without_alias,
};
use crate::operands::{conflicts, has_conflicting_comparison_operator};
use crate::config::ConditionProbabilities;
use crate::population::GeneticAlgorithmConfig;
use crate::random::{random_below, random_below_u64, random_ratio, random_u32, should_add};

verus! {

/// The operator and kind chosen for a new condition, and what is drawn to
/// create it.
pub struct ConditionChoice {
    pub op: ConditionOperator,
    pub kind: ConditionKind,
    pub draws: CreateDraws,
}

/// What is drawn for the indicator step or a condition step.
pub struct StepDraws {
    /// The step happens (with the probability of the mutation rate).
    pub rate: bool,
    /// The removal coin (three in ten).
    pub first: bool,
    /// The operator flip coin of a condition step (three in ten).
    pub second: bool,
    /// The position of what is removed or flipped (modulo their count).
    pub pick: usize,
    /// The position of the indicator added or given a condition (modulo
    /// their count).
    pub new_pick: usize,
    /// How a new condition is created.
    pub choice: ConditionChoice,
}

/// What is drawn for a structural mutation.
pub struct StructureMutationDraws {
    pub indicator: StepDraws,
    pub entry: StepDraws,
    pub exit: StepDraws,
    pub stop_rate: bool,
    pub stop_remove: bool,
    pub stop_pick: usize,
    pub stop_number: u32,
    pub nested_rate: bool,
    pub nested_remove: bool,
    pub nested_which: usize,
    pub nested_kind_pick: usize,
    pub nested_input_pick: usize,
    pub take_rate: bool,
    pub take_remove: bool,
    pub take_pick: usize,
    pub take_number: u32,
    pub timeframe_rate: bool,
    pub timeframe_remove: bool,
    pub timeframe_pick: usize,
}

/// The candidate with the created condition added to its entry (or exit)
/// conditions, where there is one and it does not conflict with them.
pub open spec fn with_created(c: StrategyCandidateView, exit: bool, x: Option<ConditionInfo>) -> StrategyCandidateView {
    match x {
        Some(cond) => if exit {
            if conflicts(cond, c.exit_conditions) {
                c
            } else {
                StrategyCandidateView { exit_conditions: c.exit_conditions.push(cond), ..c }
            }
        } else {
            if conflicts(cond, c.conditions) {
                c
            } else {
                StrategyCandidateView { conditions: c.conditions.push(cond), ..c }
            }
        },
        None => c,
    }
}

/// `b` gets a condition created for `ind` by the choice, as
/// `created_condition_on` says, when it does not conflict.
pub open spec fn gets_condition(
    reg: BuildRulesRegistry,
    b: StrategyCandidateView,
    ind: IndicatorInfo,
    exit: bool,
    choice: ConditionChoice,
    r: StrategyCandidateView,
) -> bool {
    exists|x: Option<ConditionInfo>| #[trigger] created_for(reg, b, ind, exit, choice, x) && r == with_created(b, exit, x)
}

/// The condition created for `ind` in `b` by the choice, for an exit
/// condition if `exit`.
pub open spec fn created_for(
    reg: BuildRulesRegistry,
    b: StrategyCandidateView,
    ind: IndicatorInfo,
    exit: bool,
    choice: ConditionChoice,
    x: Option<ConditionInfo>,
) -> bool {
    created_condition_on(reg, ind, b, !exit, choice.op, choice.kind, choice.draws, x)
}

/// What the indicator step does before a condition is created: with the
/// removal coin, the indicator at `pick` is removed with the conditions
/// that read it and what then goes unused, and an available indicator of
/// its type (at `new_pick` among them), if any, is added; otherwise an
/// available indicator at `new_pick` is added. The added indicator is the
/// one a new entry condition is created for.
pub open spec fn indicator_prepared(
    c: StrategyCandidateView,
    available: Seq<IndicatorInfo>,
    rate: bool,
    first: bool,
    pick: usize,
    new_pick: usize,
) -> (StrategyCandidateView, Option<IndicatorInfo>) {
    if !rate {
        (c, None)
    } else if first && c.indicators.len() > 0 {
        let idx = (pick as nat % c.indicators.len()) as int;
        let removed = c.indicators[idx];
        let base = pruned(
            without_alias(StrategyCandidateView { indicators: c.indicators.remove(idx), ..c }, removed.alias@),
        );
        let same = type_positions(available, removed.indicator_type@);
        if same.len() == 0 {
            (base, None)
        } else {
            let new = available[same[(new_pick as nat % same.len()) as int]];
            (StrategyCandidateView { indicators: base.indicators.push(new), ..base }, Some(new))
        }
    } else if available.len() > 0 {
        let new = available[(new_pick as nat % available.len()) as int];
        (StrategyCandidateView { indicators: c.indicators.push(new), ..c }, Some(new))
    } else {
        (c, None)
    }
}

/// The indicator step for the draws: `indicator_prepared`, then a new
/// entry condition for the added indicator, as `gets_condition` says.
pub open spec fn indicator_step_on(
    reg: BuildRulesRegistry,
    c: StrategyCandidateView,
    available: Seq<IndicatorInfo>,
    d: StepDraws,
    r: StrategyCandidateView,
) -> bool {
    let (b, new) = indicator_prepared(c, available, d.rate, d.first, d.pick, d.new_pick);
    match new {
        Some(n) => gets_condition(reg, b, n, false, d.choice, r),
        None => r == b,
    }
}

/// The conditions of a step: the exit conditions or the entry ones.
pub open spec fn step_conditions(c: StrategyCandidateView, exit: bool) -> Seq<ConditionInfo> {
    if exit {
        c.exit_conditions
    } else {
        c.conditions
    }
}

/// `c` with the conditions of a step replaced.
pub open spec fn with_step_conditions(c: StrategyCandidateView, exit: bool, s: Seq<ConditionInfo>) -> StrategyCandidateView {
    if exit {
        StrategyCandidateView { exit_conditions: s, ..c }
    } else {
        StrategyCandidateView { conditions: s, ..c }
    }
}

/// The candidate without the entry and exit conditions that read any of
/// the aliases, removed alias by alias.
pub open spec fn without_aliases(c: StrategyCandidateView, aliases: Seq<Seq<char>>) -> StrategyCandidateView
    decreases aliases.len(),
{
    if aliases.len() == 0 {
        c
    } else {
        without_alias(without_aliases(c, aliases.drop_last()), aliases.last())
    }
}

/// A condition may be removed: there is one and, for an exit condition,
/// the candidate keeps another way to exit.
pub open spec fn can_remove_condition(c: StrategyCandidateView, exit: bool) -> bool {
    let s = step_conditions(c, exit);
    s.len() > 0 && (!exit || s.len() > 1 || c.stop_handlers.len() > 0 || c.take_handlers.len() > 0)
}

/// What a condition step does before a condition is created: with the
/// removal coin, the condition at `pick` is removed (for an exit condition,
/// with the entry and exit conditions that read its aliases) and what goes
/// unused; else, with the flip coin, the condition at `pick` takes its
/// flipped operator where the flip is safe; else, where there are available
/// indicators, the candidate's indicator at `new_pick` is the one a new
/// condition is created for.
pub open spec fn condition_prepared(
    c: StrategyCandidateView,
    available: Seq<IndicatorInfo>,
    exit: bool,
    rate: bool,
    first: bool,
    second: bool,
    pick: usize,
    new_pick: usize,
) -> (StrategyCandidateView, Option<IndicatorInfo>) {
    let s = step_conditions(c, exit);
    if !rate {
        (c, None)
    } else if first && can_remove_condition(c, exit) {
        let idx = (pick as nat % s.len()) as int;
        let rest = with_step_conditions(c, exit, s.remove(idx));
        (
            pruned(
                if exit {
                    without_aliases(rest, condition_aliases(s[idx]))
                } else {
                    rest
                },
            ),
            None,
        )
    } else if second && s.len() > 0 {
        let idx = (pick as nat % s.len()) as int;
        match safe_flip(s, idx) {
            Some(op) => (with_step_conditions(c, exit, s.update(idx, ConditionInfo { operator: op, ..s[idx] })), None),
            None => (c, None),
        }
    } else if available.len() > 0 && c.indicators.len() > 0 {
        (c, Some(c.indicators[(new_pick as nat % c.indicators.len()) as int]))
    } else {
        (c, None)
    }
}

/// A condition step for the draws: `condition_prepared`, then a new
/// condition for the chosen indicator, as `gets_condition` says.
pub open spec fn condition_step_on(
    reg: BuildRulesRegistry,
    c: StrategyCandidateView,
    available: Seq<IndicatorInfo>,
    exit: bool,
    d: StepDraws,
    r: StrategyCandidateView,
) -> bool {
    let (b, ind) = condition_prepared(c, available, exit, d.rate, d.first, d.second, d.pick, d.new_pick);
    match ind {
        Some(n) => gets_condition(reg, b, n, exit, d.choice, r),
        None => r == b,
    }
}

/// The structural mutation for the draws: the indicator step, the entry
/// and exit condition steps, then, each where its rate coin says so, the
/// stop-handler, nested-indicator, take-handler and timeframe mutations.
pub open spec fn structure_mutated_on(
    reg: BuildRulesRegistry,
    c: StrategyCandidateView,
    available: Seq<IndicatorInfo>,
    configs: Seq<StopHandlerConfig>,
    base: TimeFrame,
    d: StructureMutationDraws,
    r: StrategyCandidateView,
) -> bool {
    exists|
        c1: StrategyCandidateView,
        c2: StrategyCandidateView,
        c3: StrategyCandidateView,
        c4: StrategyCandidateView,
        c5: StrategyCandidateView,
        c6: StrategyCandidateView,
    | #[trigger] steps_hold(reg, c, available, configs, base, d, c1, c2, c3, c4, c5, c6, r)
}

/// The steps of a structural mutation lead from `c` through `c1` to `c6`
/// to `r`.
pub open spec fn steps_hold(
    reg: BuildRulesRegistry,
    c: StrategyCandidateView,
    available: Seq<IndicatorInfo>,
    configs: Seq<StopHandlerConfig>,
    base: TimeFrame,
    d: StructureMutationDraws,
    c1: StrategyCandidateView,
    c2: StrategyCandidateView,
    c3: StrategyCandidateView,
    c4: StrategyCandidateView,
    c5: StrategyCandidateView,
    c6: StrategyCandidateView,
    r: StrategyCandidateView,
) -> bool {
    &&& indicator_step_on(reg, c, available, d.indicator, c1)
    &&& condition_step_on(reg, c1, available, false, d.entry, c2)
    &&& condition_step_on(reg, c2, available, true, d.exit, c3)
    &&& if d.stop_rate {
        handler_mutation_on(c3, configs, false, can_remove_stop(c3), true, d.stop_remove, d.stop_pick as nat, d.stop_number, c4)
    } else {
        c4 == c3
    }
    &&& if d.nested_rate {
        nested_mutation_on(
            c4,
            available,
            d.nested_remove,
            d.nested_which as nat,
            d.nested_kind_pick as nat,
            d.nested_input_pick as nat,
            c5,
        )
    } else {
        c5 == c4
    }
    &&& if d.take_rate {
        handler_mutation_on(
            c5,
            configs,
            true,
            can_remove_take(c5),
            can_add_take(c5),
            d.take_remove,
            d.take_pick as nat,
            d.take_number,
            c6,
        )
    } else {
        c6 == c5
    }
    &&& if d.timeframe_rate {
        timeframe_mutation_on(c6, base, d.timeframe_remove, d.timeframe_pick as nat, r)
    } else {
        r == c6
    }
}

/// Adds the created condition to the entry (or exit) conditions where
/// there is one and it does not conflict with them.
fn add_created(candidate: &mut StrategyCandidate, exit: bool, x: Option<ConditionInfo>)
    ensures
        final(candidate)@ == with_created(old(candidate)@, exit, x),
{
    match x {
        Some(cond) => {
            if exit {
                if !has_conflicting_comparison_operator(&cond, candidate.exit_conditions.as_slice()) {
                    candidate.exit_conditions.push(cond);
                }
            } else {
                if !has_conflicting_comparison_operator(&cond, candidate.conditions.as_slice()) {
                    candidate.conditions.push(cond);
                }
            }
        },
        None => {},
    }
}

/// Creates a condition for the indicator by the choice and adds it, as
/// `gets_condition` says.
fn add_condition_for(
    registry: &BuildRulesRegistry,
    candidate: &mut StrategyCandidate,
    indicator: &IndicatorInfo,
    exit: bool,
    choice: &ConditionChoice,
)
    ensures
        gets_condition(*registry, old(candidate)@, *indicator, exit, *choice, final(candidate)@),
{
    let x = create_condition_for_indicator_with_draws(
        registry,
        indicator,
        candidate,
        !exit,
        choice.op,
        choice.kind,
        &choice.draws,
    );
    let ghost gx = x;
    add_created(candidate, exit, x);
    assert(created_for(*registry, old(candidate)@, *indicator, exit, *choice, gx));
}

/// Takes the indicator step up to the creation of a condition, as
/// `indicator_prepared` says; gives the indicator to create it for.
fn prepare_indicator_step(
    candidate: &mut StrategyCandidate,
    available_indicators: &[IndicatorInfo],
    rate: bool,
    first: bool,
    pick: usize,
    new_pick: usize,
) -> (r: Option<IndicatorInfo>)
    ensures
        final(candidate)@ == indicator_prepared(old(candidate)@, available_indicators@, rate, first, pick, new_pick).0,
        r == indicator_prepared(old(candidate)@, available_indicators@, rate, first, pick, new_pick).1,
{
    let ghost c = candidate@;
    if !rate {
        return None;
    }
    if first && candidate.indicators.len() > 0 {
        let idx = pick % candidate.indicators.len();
        let removed_type = candidate.indicators[idx].indicator_type.clone();
        let removed_alias = candidate.indicators[idx].alias.clone();
        candidate.indicators.remove(idx);
        remove_conditions_with_indicator(candidate, removed_alias.as_str());
        remove_unused_indicators(candidate);
        let ghost base = candidate@;
        assert(base == pruned(
            without_alias(StrategyCandidateView { indicators: c.indicators.remove(idx as int), ..c }, c.indicators[idx as int].alias@),
        ));
        let same = positions_of_type_exec(available_indicators, removed_type.as_str());
        if same.len() > 0 {
            let a = same[new_pick % same.len()];
            let new = available_indicators[a].clone();
            candidate.indicators.push(new.clone());
            assert(candidate@ == (StrategyCandidateView { indicators: base.indicators.push(new), ..base }));
            Some(new)
        } else {
            None
        }
    } else if available_indicators.len() > 0 {
        let new = available_indicators[new_pick % available_indicators.len()].clone();
        candidate.indicators.push(new.clone());
        assert(candidate@ == (StrategyCandidateView { indicators: c.indicators.push(new), ..c }));
        Some(new)
    } else {
        None
    }
}

/// The indicator step for the draws, as `indicator_step_on` says.
pub fn apply_indicator_step(
    registry: &BuildRulesRegistry,
    candidate: &mut StrategyCandidate,
    available_indicators: &[IndicatorInfo],
    d: &StepDraws,
)
    ensures
        indicator_step_on(*registry, old(candidate)@, available_indicators@, *d, final(candidate)@),
{
    match prepare_indicator_step(candidate, available_indicators, d.rate, d.first, d.pick, d.new_pick) {
        Some(new) => add_condition_for(registry, candidate, &new, false, &d.choice),
        None => {},
    }
}

/// The positions of the available indicators of the type `kind`, as
/// `type_positions` says.
fn positions_of_type_exec(available: &[IndicatorInfo], kind: &str) -> (r: Vec<usize>)
    ensures
        r@.len() == type_positions(available@, kind@).len(),
        forall|k: int| 0 <= k < r@.len() ==> #[trigger] r@[k] as int == type_positions(available@, kind@)[k],
        forall|k: int| 0 <= k < r@.len() ==> #[trigger] r@[k] < available@.len(),
{
    let mut r: Vec<usize> = Vec::new();
    let mut j: usize = 0;
    while j < available.len()
        invariant
            j <= available@.len(),
            r@.len() == type_positions(available@.take(j as int), kind@).len(),
            forall|k: int| 0 <= k < r@.len() ==> #[trigger] r@[k] as int == type_positions(available@.take(j as int), kind@)[k],
            forall|k: int| 0 <= k < r@.len() ==> #[trigger] r@[k] < j,
        decreases available@.len() - j,
    {
        assert(available@.take(j + 1).drop_last() =~= available@.take(j as int));
        if crate::text::same_text(available[j].indicator_type.as_str(), kind) {
            r.push(j);
        }
        j = j + 1;
    }
    assert(available@.take(available@.len() as int) =~= available@);
    r
}

/// Removes the entry and exit conditions that read any of the aliases,
/// alias by alias.
fn remove_conditions_with_aliases(candidate: &mut StrategyCandidate, aliases: &Vec<String>)
    ensures
        final(candidate)@ == without_aliases(old(candidate)@, aliases@.map_values(|s: String| s@)),
{
    let ghost c = candidate@;
    let ghost a = aliases@.map_values(|s: String| s@);
    let mut i: usize = 0;
    while i < aliases.len()
        invariant
            i <= aliases@.len(),
            a == aliases@.map_values(|s: String| s@),
            candidate@ == without_aliases(c, a.take(i as int)),
        decreases aliases@.len() - i,
    {
        assert(a.take(i + 1).drop_last() =~= a.take(i as int));
        remove_conditions_with_indicator(candidate, aliases[i].as_str());
        i = i + 1;
    }
    assert(a.take(a.len() as int) =~= a);
}

/// Takes a condition step up to the creation of a condition, as
/// `condition_prepared` says; gives the indicator to create it for.
fn prepare_condition_step(
    candidate: &mut StrategyCandidate,
    available_indicators: &[IndicatorInfo],
    exit: bool,
    rate: bool,
    first: bool,
    second: bool,
    pick: usize,
    new_pick: usize,
) -> (r: Option<IndicatorInfo>)
    ensures
        final(candidate)@ == condition_prepared(old(candidate)@, available_indicators@, exit, rate, first, second, pick, new_pick).0,
        r == condition_prepared(old(candidate)@, available_indicators@, exit, rate, first, second, pick, new_pick).1,
{
    let ghost c = candidate@;
    if !rate {
        return None;
    }
    let len = if exit {
        candidate.exit_conditions.len()
    } else {
        candidate.conditions.len()
    };
    let can_remove = len > 0 && (!exit || len > 1 || candidate.stop_handlers.len() > 0 || candidate.take_handlers.len() > 0);
    if first && can_remove {
        let idx = pick % len;
        if exit {
            let aliases = candidate.exit_conditions[idx].all_indicator_aliases();
            candidate.exit_conditions.remove(idx);
            let ghost rest = candidate@;
            assert(rest == with_step_conditions(c, true, c.exit_conditions.remove(idx as int)));
            remove_conditions_with_aliases(candidate, &aliases);
        } else {
            candidate.conditions.remove(idx);
            assert(candidate@ == with_step_conditions(c, false, c.conditions.remove(idx as int)));
        }
        remove_unused_indicators(candidate);
        None
    } else if second && len > 0 {
        let idx = pick % len;
        let flipped = if exit {
            get_safe_flipped_operator(candidate.exit_conditions.as_slice(), idx)
        } else {
            get_safe_flipped_operator(candidate.conditions.as_slice(), idx)
        };
        match flipped {
            Some(op) => {
                if exit {
                    let mut cond = candidate.exit_conditions[idx].clone();
                    cond.operator = op;
                    let ghost cv = cond;
                    candidate.exit_conditions.set(idx, cond);
                    assert(cv == (ConditionInfo { operator: op, ..c.exit_conditions[idx as int] }));
                    assert(candidate@.exit_conditions =~= c.exit_conditions.update(idx as int, cv));
                } else {
                    let mut cond = candidate.conditions[idx].clone();
                    cond.operator = op;
                    let ghost cv = cond;
                    candidate.conditions.set(idx, cond);
                    assert(cv == (ConditionInfo { operator: op, ..c.conditions[idx as int] }));
                    assert(candidate@.conditions =~= c.conditions.update(idx as int, cv));
                }
            },
            None => {},
        }
        None
    } else if available_indicators.len() > 0 && candidate.indicators.len() > 0 {
        Some(candidate.indicators[new_pick % candidate.indicators.len()].clone())
    } else {
        None
    }
}

/// A condition step for the draws, as `condition_step_on` says.
pub fn apply_condition_step(
    registry: &BuildRulesRegistry,
    candidate: &mut StrategyCandidate,
    available_indicators: &[IndicatorInfo],
    exit: bool,
    d: &StepDraws,
)
    ensures
        condition_step_on(*registry, old(candidate)@, available_indicators@, exit, *d, final(candidate)@),
{
    match prepare_condition_step(candidate, available_indicators, exit, d.rate, d.first, d.second, d.pick, d.new_pick) {
        Some(ind) => add_condition_for(registry, candidate, &ind, exit, &d.choice),
        None => {},
    }
}


/// The structural mutation for the draws, as `structure_mutated_on` says.
pub fn mutate_structure_with_draws(
    registry: &BuildRulesRegistry,
    candidate: &mut StrategyCandidate,
    available_indicators: &[IndicatorInfo],
    stop_handler_configs: &[StopHandlerConfig],
    base_timeframe: TimeFrame,
    d: &StructureMutationDraws,
)
    ensures
        structure_mutated_on(
            *registry,
            old(candidate)@,
            available_indicators@,
            stop_handler_configs@,
            base_timeframe,
            *d,
            final(candidate)@,
        ),
{
    let ghost c = candidate@;
    apply_indicator_step(registry, candidate, available_indicators, &d.indicator);
    let ghost c1 = candidate@;
    apply_condition_step(registry, candidate, available_indicators, false, &d.entry);
    let ghost c2 = candidate@;
    apply_condition_step(registry, candidate, available_indicators, true, &d.exit);
    let ghost c3 = candidate@;
    if d.stop_rate {
        apply_stop_mutation(candidate, stop_handler_configs, d.stop_remove, d.stop_pick, d.stop_number);
    }
    let ghost c4 = candidate@;
    if d.nested_rate {
        apply_nested_mutation(candidate, available_indicators, d.nested_remove, d.nested_which, d.nested_kind_pick, d.nested_input_pick);
    }
    let ghost c5 = candidate@;
    if d.take_rate {
        apply_take_mutation(candidate, stop_handler_configs, d.take_remove, d.take_pick, d.take_number);
    }
    let ghost c6 = candidate@;
    if d.timeframe_rate {
        apply_timeframe_mutation(candidate, base_timeframe, d.timeframe_remove, d.timeframe_pick);
    }
    assert(steps_hold(*registry, c, available_indicators@, stop_handler_configs@, base_timeframe, *d, c1, c2, c3, c4, c5, c6, candidate@));
}

/// Chooses the operator and kind of a new condition for the indicator of
/// the candidate and draws the rest, as `create_condition_for_indicator`
/// does.
fn draw_choice(
    registry: &BuildRulesRegistry,
    indicator: &IndicatorInfo,
    candidate: &StrategyCandidate,
    config: &GeneticAlgorithmConfig,
    min_period: u32,
    max_period: u32,
    rng: &mut ThreadRng,
) -> (r: ConditionChoice)
    requires
        min_period <= max_period,
    ensures
        min_period <= r.draws.period <= max_period,
{
    let probabilities = match &config.candidate_builder_config {
        Some(c) => c.probabilities.conditions,
        None => ConditionProbabilities::default(),
    };
    let all = crate::builders::all_indicators(&candidate.indicators, &candidate.nested_indicators);
    let (op, kind) = crate::selection::OperatorSelectorFactory::select_operator_and_condition_type(
        indicator,
        candidate.nested_indicators.as_slice(),
        all.as_slice(),
        &probabilities,
        rng,
    );
    let comp = crate::builders::comparable_exec(registry, indicator, &all, &candidate.nested_indicators, &candidate.indicators);
    let secondary_pick = if comp.len() > 0 {
        random_below(rng, comp.len())
    } else {
        0
    };
    let constant_count: u64 = if crate::text::same_text(indicator.indicator_type.as_str(), "volatility") {
        981
    } else if crate::text::same_text(indicator.name.as_str(), "RSI") {
        201
    } else if crate::text::same_text(indicator.name.as_str(), "Stochastic") {
        151
    } else {
        1001
    };
    let constant_pick = random_below_u64(rng, constant_count);
    let span: u64 = max_period as u64 - min_period as u64 + 1;
    let period = (min_period as u64 + random_below_u64(rng, span)) as u32;
    let number = random_u32(rng);
    let percent = should_add(probabilities.use_percent_condition, rng);
    let percent_pick = random_below_u64(rng, 491);
    ConditionChoice { op, kind, draws: CreateDraws { secondary_pick, constant_pick, period, number, percent, percent_pick } }
}

fn no_choice() -> (r: ConditionChoice) {
    ConditionChoice {
        op: ConditionOperator::Above,
        kind: ConditionKind::IndicatorPrice,
        draws: CreateDraws { secondary_pick: 0, constant_pick: 0, period: 0, number: 0, percent: false, percent_pick: 0 },
    }
}

/// Takes the indicator step at random and gives its draws.
fn random_indicator_step(
    registry: &BuildRulesRegistry,
    candidate: &mut StrategyCandidate,
    available_indicators: &[IndicatorInfo],
    config: &GeneticAlgorithmConfig,
    rate: u32,
    min_period: u32,
    max_period: u32,
    rng: &mut ThreadRng,
) -> (d: StepDraws)
    requires
        rate <= 1_000_000,
        min_period <= max_period,
    ensures
        indicator_step_on(*registry, old(candidate)@, available_indicators@, d, final(candidate)@),
        rate == 0 ==> !d.rate,
        rate == 1_000_000 ==> d.rate,
{
    let happens = random_ratio(rng, rate, 1_000_000);
    let first = happens && random_ratio(rng, 3, 10);
    let mut pick: usize = 0;
    let mut new_pick: usize = 0;
    if happens && first && candidate.indicators.len() > 0 {
        pick = random_below(rng, candidate.indicators.len());
        let idx = pick % candidate.indicators.len();
        let same = positions_of_type_exec(available_indicators, candidate.indicators[idx].indicator_type.as_str());
        if same.len() > 0 {
            new_pick = random_below(rng, same.len());
        }
    } else if happens && available_indicators.len() > 0 {
        new_pick = random_below(rng, available_indicators.len());
    }
    let added = prepare_indicator_step(candidate, available_indicators, happens, first, pick, new_pick);
    let choice = match added {
        Some(new) => {
            let choice = draw_choice(registry, &new, candidate, config, min_period, max_period, rng);
            add_condition_for(registry, candidate, &new, false, &choice);
            choice
        },
        None => no_choice(),
    };
    StepDraws { rate: happens, first, second: false, pick, new_pick, choice }
}

/// Takes a condition step at random and gives its draws.
fn random_condition_step(
    registry: &BuildRulesRegistry,
    candidate: &mut StrategyCandidate,
    available_indicators: &[IndicatorInfo],
    exit: bool,
    config: &GeneticAlgorithmConfig,
    rate: u32,
    min_period: u32,
    max_period: u32,
    rng: &mut ThreadRng,
) -> (d: StepDraws)
    requires
        rate <= 1_000_000,
        min_period <= max_period,
    ensures
        condition_step_on(*registry, old(candidate)@, available_indicators@, exit, d, final(candidate)@),
        rate == 0 ==> !d.rate,
        rate == 1_000_000 ==> d.rate,
{
    let happens = random_ratio(rng, rate, 1_000_000);
    let first = happens && random_ratio(rng, 3, 10);
    let second = happens && random_ratio(rng, 3, 10);
    let len = if exit {
        candidate.exit_conditions.len()
    } else {
        candidate.conditions.len()
    };
    let pick = if happens && len > 0 {
        random_below(rng, len)
    } else {
        0
    };
    let new_pick = if happens && candidate.indicators.len() > 0 {
        random_below(rng, candidate.indicators.len())
    } else {
        0
    };
    let chosen = prepare_condition_step(candidate, available_indicators, exit, happens, first, second, pick, new_pick);
    let choice = match chosen {
        Some(ind) => {
            let choice = draw_choice(registry, &ind, candidate, config, min_period, max_period, rng);
            add_condition_for(registry, candidate, &ind, exit, &choice);
            choice
        },
        None => no_choice(),
    };
    StepDraws { rate: happens, first, second, pick, new_pick, choice }
}

/// Mutates the structure of the candidate at random: each of the indicator
/// step, the entry and exit condition steps, and the stop-handler,
/// nested-indicator and take-handler mutations happens with the
/// probability of the mutation rate, the timeframe mutation with half of
/// it; new conditions are created with trend periods from `min_period` to
/// `max_period`. The result is that of `structure_mutated_on` for the
/// draws; at a mutation rate of zero nothing changes.
pub fn mutate_structure(
    registry: &BuildRulesRegistry,
    candidate: &mut StrategyCandidate,
    config: &GeneticAlgorithmConfig,
    available_indicators: &[IndicatorInfo],
    stop_handler_configs: &[StopHandlerConfig],
    base_timeframe: TimeFrame,
    min_period: u32,
    max_period: u32,
    rng: &mut ThreadRng,
)
    requires
        min_period <= max_period,
    ensures
        exists|d: StructureMutationDraws|
            #[trigger] structure_mutated_on(
                *registry,
                old(candidate)@,
                available_indicators@,
                stop_handler_configs@,
                base_timeframe,
                d,
                final(candidate)@,
            ),
        config.mutation_rate == 0 ==> final(candidate)@ == old(candidate)@,
        config.mutation_rate >= 1_000_000 ==> exists|d: StructureMutationDraws|
            d.indicator.rate && d.entry.rate && d.exit.rate && d.stop_rate && d.nested_rate && d.take_rate
                && #[trigger] structure_mutated_on(
                *registry,
                old(candidate)@,
                available_indicators@,
                stop_handler_configs@,
                base_timeframe,
                d,
                final(candidate)@,
            ),
        config.mutation_rate >= 2_000_000 ==> exists|d: StructureMutationDraws|
            d.indicator.rate && d.entry.rate && d.exit.rate && d.stop_rate && d.nested_rate && d.take_rate
                && d.timeframe_rate && #[trigger] structure_mutated_on(
                *registry,
                old(candidate)@,
                available_indicators@,
                stop_handler_configs@,
                base_timeframe,
                d,
                final(candidate)@,
            ),
{
    let ghost c = candidate@;
    let rate = if config.mutation_rate > 1_000_000 {
        1_000_000
    } else {
        config.mutation_rate
    };
    let indicator = random_indicator_step(registry, candidate, available_indicators, config, rate, min_period, max_period, rng);
    let ghost c1 = candidate@;
    let entry = random_condition_step(registry, candidate, available_indicators, false, config, rate, min_period, max_period, rng);
    let ghost c2 = candidate@;
    let exit = random_condition_step(registry, candidate, available_indicators, true, config, rate, min_period, max_period, rng);
    let ghost c3 = candidate@;
    let stop_rate = random_ratio(rng, rate, 1_000_000);
    let (stop_remove, stop_pick, stop_number) = if stop_rate {
        crate::mutation::draw_stop(candidate, stop_handler_configs, rng)
    } else {
        (false, 0, 0)
    };
    if stop_rate {
        apply_stop_mutation(candidate, stop_handler_configs, stop_remove, stop_pick, stop_number);
    }
    let ghost c4 = candidate@;
    let nested_rate = random_ratio(rng, rate, 1_000_000);
    let (nested_remove, nested_which, nested_kind_pick, nested_input_pick) = if nested_rate {
        crate::mutation::draw_nested(candidate, available_indicators, rng)
    } else {
        (false, 0, 0, 0)
    };
    if nested_rate {
        apply_nested_mutation(candidate, available_indicators, nested_remove, nested_which, nested_kind_pick, nested_input_pick);
    }
    let ghost c5 = candidate@;
    let take_rate = random_ratio(rng, rate, 1_000_000);
    let (take_remove, take_pick, take_number) = if take_rate {
        crate::mutation::draw_take(candidate, stop_handler_configs, rng)
    } else {
        (false, 0, 0)
    };
    if take_rate {
        apply_take_mutation(candidate, stop_handler_configs, take_remove, take_pick, take_number);
    }
    let ghost c6 = candidate@;
    let half_rate = if config.mutation_rate > 2_000_000 {
        2_000_000
    } else {
        config.mutation_rate
    };
    let timeframe_rate = random_ratio(rng, half_rate, 2_000_000);
    let (timeframe_remove, timeframe_pick) = if timeframe_rate {
        crate::mutation::draw_timeframe(candidate, base_timeframe, rng)
    } else {
        (false, 0)
    };
    if timeframe_rate {
        apply_timeframe_mutation(candidate, base_timeframe, timeframe_remove, timeframe_pick);
    }
    let d = StructureMutationDraws {
        indicator,
        entry,
        exit,
        stop_rate,
        stop_remove,
        stop_pick,
        stop_number,
        nested_rate,
        nested_remove,
        nested_which,
        nested_kind_pick,
        nested_input_pick,
        take_rate,
        take_remove,
        take_pick,
        take_number,
        timeframe_rate,
        timeframe_remove,
        timeframe_pick,
    };
    assert(steps_hold(*registry, c, available_indicators@, stop_handler_configs@, base_timeframe, d, c1, c2, c3, c4, c5, c6, candidate@));
    assert(structure_mutated_on(*registry, c, available_indicators@, stop_handler_configs@, base_timeframe, d, candidate@));
}
} // verus!
