//! Structural mutations of a candidate that need no new condition: stop and
//! take handlers, nested indicators and timeframes are removed, added or
//! replaced at random, within the rules that keep the candidate able to
//! exit a position.

use vstd::prelude::*;
use crate::model::{
    IndicatorInfo, NestedIndicator, StopHandlerConfig, StopHandlerInfo, StopHandlerView, StrategyCandidate,
    StrategyCandidateView, TimeFrame, condition_aliases,
};
use crate::genetic::{pruned, remove_conditions_with_indicator, remove_unused_indicators};
use crate::random::{new_rng, random_below, random_ratio, random_u32};
use crate::text::{decimal, owned, push_decimal, same_text};
use rand::rngs::ThreadRng;

verus! {

/// The handler was made from the registry entry: its identifier is `prefix`
/// and a number, its names those of the entry's handler, with the entry's
/// type and priority and no parameters.
pub open spec fn made_from(h: StopHandlerView, cfg: StopHandlerConfig, prefix: Seq<char>) -> bool {
    &&& exists|n: nat| n <= u32::MAX && h.id@ == prefix + #[trigger] decimal(n)
    &&& h.name == cfg.handler_name
    &&& h.handler_name == cfg.handler_name
    &&& h.stop_type == cfg.stop_type
    &&& h.optimization_params.len() == 0
    &&& h.priority == cfg.priority
}

/// The registry offers a handler of the type `kind`.
pub open spec fn offers(configs: Seq<StopHandlerConfig>, kind: Seq<char>) -> bool {
    exists|j: int| 0 <= j < configs.len() && (#[trigger] configs[j]).stop_type@ == kind
}

/// A stop handler may be removed: there is one, and the candidate keeps
/// another way to exit without it.
pub open spec fn can_remove_stop(c: StrategyCandidateView) -> bool {
    c.stop_handlers.len() > 0 && (c.stop_handlers.len() > 1 || c.exit_conditions.len() > 0 || c.take_handlers.len() > 0)
}

/// A take handler may be removed: there is one, and the candidate keeps
/// another way to exit without it.
pub open spec fn can_remove_take(c: StrategyCandidateView) -> bool {
    c.take_handlers.len() > 0 && (c.take_handlers.len() > 1 || c.exit_conditions.len() > 0 || c.stop_handlers.len() > 0)
}

/// A take handler may be added: the candidate has exit conditions or a stop
/// handler.
pub open spec fn can_add_take(c: StrategyCandidateView) -> bool {
    c.exit_conditions.len() > 0 || c.stop_handlers.len() > 0
}

/// The outcomes of a stop-handler mutation: a stop handler removed, where
/// one may be; a stop handler of a "stop_loss" entry added; or, when the
/// registry offers no such entry, nothing changed.
pub open spec fn stop_mutation(c: StrategyCandidateView, configs: Seq<StopHandlerConfig>, r: StrategyCandidateView) -> bool {
    ||| can_remove_stop(c) && exists|i: int|
        0 <= i < c.stop_handlers.len() && r == (StrategyCandidateView {
            stop_handlers: #[trigger] c.stop_handlers.remove(i),
            ..c
        })
    ||| exists|j: int, h: StopHandlerView|
        0 <= j < configs.len() && configs[j].stop_type@ == "stop_loss"@ && made_from(h, #[trigger] configs[j], "stop_"@)
            && r == (StrategyCandidateView { stop_handlers: #[trigger] c.stop_handlers.push(h), ..c })
    ||| !offers(configs, "stop_loss"@) && r == c
}

/// The outcomes of a take-handler mutation: a take handler removed, where
/// one may be; a take handler of a "take_profit" entry added, where one may
/// be; or, when none may be added, nothing changed.
pub open spec fn take_mutation(c: StrategyCandidateView, configs: Seq<StopHandlerConfig>, r: StrategyCandidateView) -> bool {
    ||| can_remove_take(c) && exists|i: int|
        0 <= i < c.take_handlers.len() && r == (StrategyCandidateView {
            take_handlers: #[trigger] c.take_handlers.remove(i),
            ..c
        })
    ||| can_add_take(c) && exists|j: int, h: StopHandlerView|
        0 <= j < configs.len() && configs[j].stop_type@ == "take_profit"@ && made_from(h, #[trigger] configs[j], "take_"@)
            && r == (StrategyCandidateView { take_handlers: #[trigger] c.take_handlers.push(h), ..c })
    ||| !(can_add_take(c) && offers(configs, "take_profit"@)) && r == c
}

/// The positions of the registry entries of the type `kind`, in order.
pub open spec fn kind_positions(configs: Seq<StopHandlerConfig>, kind: Seq<char>) -> Seq<int>
    decreases configs.len(),
{
    if configs.len() == 0 {
        Seq::empty()
    } else {
        let p = kind_positions(configs.drop_last(), kind);
        if configs.last().stop_type@ == kind {
            p.push(configs.len() - 1)
        } else {
            p
        }
    }
}

/// The positions of the entries of the type `kind`.
fn positions_of_kind(configs: &[StopHandlerConfig], kind: &str) -> (r: Vec<usize>)
    ensures
        forall|k: int| 0 <= k < r@.len() ==> #[trigger] r@[k] < configs@.len() && configs@[r@[k] as int].stop_type@ == kind@,
        r@.len() == 0 <==> !offers(configs@, kind@),
        r@.len() == kind_positions(configs@, kind@).len(),
        forall|k: int| 0 <= k < r@.len() ==> #[trigger] r@[k] as int == kind_positions(configs@, kind@)[k],
{
    let mut r: Vec<usize> = Vec::new();
    let mut j: usize = 0;
    while j < configs.len()
        invariant
            j <= configs@.len(),
            forall|k: int| 0 <= k < r@.len() ==> #[trigger] r@[k] < configs@.len() && configs@[r@[k] as int].stop_type@ == kind@,
            r@.len() == 0 <==> forall|k: int| 0 <= k < j ==> (#[trigger] configs@[k]).stop_type@ != kind@,
            r@.len() == kind_positions(configs@.take(j as int), kind@).len(),
            forall|k: int| 0 <= k < r@.len() ==> #[trigger] r@[k] as int == kind_positions(configs@.take(j as int), kind@)[k],
        decreases configs@.len() - j,
    {
        assert(configs@.take(j + 1).drop_last() =~= configs@.take(j as int));
        if same_text(configs[j].stop_type.as_str(), kind) {
            r.push(j);
        }
        j = j + 1;
    }
    assert(configs@.take(configs@.len() as int) =~= configs@);
    r
}

/// The handler was made from the registry entry with the identifier
/// `prefix` and `number`, the names of the entry's handler, the entry's type
/// and priority and no parameters.
pub open spec fn made_with(h: StopHandlerView, cfg: StopHandlerConfig, prefix: Seq<char>, number: u32) -> bool {
    &&& h.id@ == prefix + decimal(number as nat)
    &&& h.name == cfg.handler_name
    &&& h.handler_name == cfg.handler_name
    &&& h.stop_type == cfg.stop_type
    &&& h.optimization_params.len() == 0
    &&& h.priority == cfg.priority
}

/// The stop handlers of a candidate, or its take handlers if `take`.
pub open spec fn handlers_of(c: StrategyCandidateView, take: bool) -> Seq<StopHandlerView> {
    if take {
        c.take_handlers
    } else {
        c.stop_handlers
    }
}

/// `c` with its stop (or, if `take`, take) handlers replaced by `hs`.
pub open spec fn with_handlers(c: StrategyCandidateView, take: bool, hs: Seq<StopHandlerView>) -> StrategyCandidateView {
    if take {
        StrategyCandidateView { take_handlers: hs, ..c }
    } else {
        StrategyCandidateView { stop_handlers: hs, ..c }
    }
}

/// A handler mutation on given draws: when `remove` and `can_remove`, the
/// handler at `pick` (modulo their count) goes; otherwise, when `can_add`
/// and the registry offers entries of the type `kind`, a handler made from
/// the entry at `pick` (modulo their count) among those, with the
/// identifier `prefix` and `number`, is added; otherwise nothing changes.
pub open spec fn handler_mutation_on(
    c: StrategyCandidateView,
    configs: Seq<StopHandlerConfig>,
    take: bool,
    can_remove: bool,
    can_add: bool,
    remove: bool,
    pick: nat,
    number: u32,
    r: StrategyCandidateView,
) -> bool {
    let hs = handlers_of(c, take);
    let kind = if take { "take_profit"@ } else { "stop_loss"@ };
    let prefix = if take { "take_"@ } else { "stop_"@ };
    let ps = kind_positions(configs, kind);
    if remove && can_remove {
        r == with_handlers(c, take, hs.remove((pick % hs.len()) as int))
    } else if can_add && ps.len() > 0 {
        let h = handlers_of(r, take).last();
        r == with_handlers(c, take, hs.push(h)) && made_with(h, configs[ps[(pick % ps.len()) as int]], prefix, number)
    } else {
        r == c
    }
}

/// A handler made from the entry, with `prefix` and `n` as its identifier.
fn handler_from(cfg: &StopHandlerConfig, prefix: &str, n: u32) -> (r: StopHandlerInfo)
    ensures
        made_from(r@, *cfg, prefix@),
        made_with(r@, *cfg, prefix@, n),
{
    let mut id = owned(prefix);
    push_decimal(&mut id, n as u64);
    let r = StopHandlerInfo {
        id,
        name: cfg.handler_name.clone(),
        handler_name: cfg.handler_name.clone(),
        stop_type: cfg.stop_type.clone(),
        optimization_params: Vec::new(),
        priority: cfg.priority,
    };
    assert(r@.id@ == prefix@ + decimal(n as nat));
    r
}

/// Mutates the stop handlers: with a chance of three in ten, and where the
/// candidate keeps another way to exit, a random stop handler is removed;
/// otherwise a handler of a random "stop_loss" entry of the registry is
/// added, under the identifier "stop_" and a random number.
pub fn mutate_stop_handlers(candidate: &mut StrategyCandidate, stop_handler_configs: &[StopHandlerConfig])
    ensures
        stop_mutation(old(candidate)@, stop_handler_configs@, final(candidate)@),
{
    let mut rng = new_rng();
    let can_remove = candidate.stop_handlers.len() > 0 && (candidate.stop_handlers.len() > 1
        || candidate.exit_conditions.len() > 0 || candidate.take_handlers.len() > 0);
    let remove = random_ratio(&mut rng, 3, 10);
    let stops = positions_of_kind(stop_handler_configs, "stop_loss");
    let (pick, number) = if remove && can_remove {
        (random_below(&mut rng, candidate.stop_handlers.len()), 0)
    } else if stops.len() > 0 {
        let pick = random_below(&mut rng, stops.len());
        (pick, random_u32(&mut rng))
    } else {
        (0, 0)
    };
    apply_stop_mutation(candidate, stop_handler_configs, remove, pick, number);
}

/// The stop-handler mutation for given draws, as `handler_mutation_on`
/// says: the coin `remove`, the position `pick` and the identifier's
/// `number`.
pub fn apply_stop_mutation(
    candidate: &mut StrategyCandidate,
    stop_handler_configs: &[StopHandlerConfig],
    remove: bool,
    pick: usize,
    number: u32,
)
    ensures
        handler_mutation_on(
            old(candidate)@,
            stop_handler_configs@,
            false,
            can_remove_stop(old(candidate)@),
            true,
            remove,
            pick as nat,
            number,
            final(candidate)@,
        ),
        stop_mutation(old(candidate)@, stop_handler_configs@, final(candidate)@),
{
    let ghost c = candidate@;
    let can_remove = candidate.stop_handlers.len() > 0 && (candidate.stop_handlers.len() > 1
        || candidate.exit_conditions.len() > 0 || candidate.take_handlers.len() > 0);
    let stops = positions_of_kind(stop_handler_configs, "stop_loss");
    proof {
        reveal_strlit("stop_loss");
        reveal_strlit("stop_");
    }
    if remove && can_remove {
        let idx = pick % candidate.stop_handlers.len();
        candidate.stop_handlers.remove(idx);
        assert(candidate@.stop_handlers =~= c.stop_handlers.remove(idx as int));
        assert(candidate@ == (StrategyCandidateView { stop_handlers: c.stop_handlers.remove(idx as int), ..c }));
    } else if stops.len() > 0 {
        let j = stops[pick % stops.len()];
        let h = handler_from(&stop_handler_configs[j], "stop_", number);
        let ghost hv = h@;
        candidate.stop_handlers.push(h);
        assert(candidate@.stop_handlers =~= c.stop_handlers.push(hv));
        assert(candidate@.stop_handlers.last() == hv);
        assert(stop_handler_configs@[j as int].stop_type@ == "stop_loss"@);
        assert(made_from(hv, stop_handler_configs@[j as int], "stop_"@));
    }
}

/// Mutates the take handlers: with a chance of three in ten, and where the
/// candidate keeps another way to exit, a random take handler is removed;
/// otherwise, when the candidate has exit conditions or a stop handler, a
/// handler of a random "take_profit" entry of the registry is added, under
/// the identifier "take_" and a random number.
pub fn mutate_take_handlers(candidate: &mut StrategyCandidate, stop_handler_configs: &[StopHandlerConfig])
    ensures
        take_mutation(old(candidate)@, stop_handler_configs@, final(candidate)@),
{
    let mut rng = new_rng();
    let has_exit = candidate.exit_conditions.len() > 0;
    let has_stop = candidate.stop_handlers.len() > 0;
    let can_remove = candidate.take_handlers.len() > 0 && (candidate.take_handlers.len() > 1 || has_exit || has_stop);
    let remove = random_ratio(&mut rng, 3, 10);
    let takes = positions_of_kind(stop_handler_configs, "take_profit");
    let (pick, number) = if remove && can_remove {
        (random_below(&mut rng, candidate.take_handlers.len()), 0)
    } else if (has_exit || has_stop) && takes.len() > 0 {
        let pick = random_below(&mut rng, takes.len());
        (pick, random_u32(&mut rng))
    } else {
        (0, 0)
    };
    apply_take_mutation(candidate, stop_handler_configs, remove, pick, number);
}

/// The take-handler mutation for given draws, as `handler_mutation_on`
/// says: the coin `remove`, the position `pick` and the identifier's
/// `number`.
pub fn apply_take_mutation(
    candidate: &mut StrategyCandidate,
    stop_handler_configs: &[StopHandlerConfig],
    remove: bool,
    pick: usize,
    number: u32,
)
    ensures
        handler_mutation_on(
            old(candidate)@,
            stop_handler_configs@,
            true,
            can_remove_take(old(candidate)@),
            can_add_take(old(candidate)@),
            remove,
            pick as nat,
            number,
            final(candidate)@,
        ),
        take_mutation(old(candidate)@, stop_handler_configs@, final(candidate)@),
{
    let ghost c = candidate@;
    let has_exit = candidate.exit_conditions.len() > 0;
    let has_stop = candidate.stop_handlers.len() > 0;
    let can_remove = candidate.take_handlers.len() > 0 && (candidate.take_handlers.len() > 1 || has_exit || has_stop);
    let takes = positions_of_kind(stop_handler_configs, "take_profit");
    proof {
        reveal_strlit("take_profit");
        reveal_strlit("take_");
    }
    if remove && can_remove {
        let idx = pick % candidate.take_handlers.len();
        candidate.take_handlers.remove(idx);
        assert(candidate@.take_handlers =~= c.take_handlers.remove(idx as int));
        assert(candidate@ == (StrategyCandidateView { take_handlers: c.take_handlers.remove(idx as int), ..c }));
    } else if (has_exit || has_stop) && takes.len() > 0 {
        let j = takes[pick % takes.len()];
        let h = handler_from(&stop_handler_configs[j], "take_", number);
        let ghost hv = h@;
        candidate.take_handlers.push(h);
        assert(candidate@.take_handlers =~= c.take_handlers.push(hv));
        assert(candidate@.take_handlers.last() == hv);
        assert(stop_handler_configs@[j as int].stop_type@ == "take_profit"@);
        assert(made_from(hv, stop_handler_configs@[j as int], "take_"@));
    } else {
        assert(!(can_add_take(c) && offers(stop_handler_configs@, "take_profit"@)));
    }
}


/// The candidate without the entry and exit conditions that read the alias.
pub open spec fn without_alias(c: StrategyCandidateView, alias: Seq<char>) -> StrategyCandidateView {
    StrategyCandidateView {
        conditions: c.conditions.filter(|x: crate::model::ConditionInfo| !condition_aliases(x).contains(alias)),
        exit_conditions: c.exit_conditions.filter(|x: crate::model::ConditionInfo| !condition_aliases(x).contains(alias)),
        ..c
    }
}

/// The candidate after the nested indicator at `idx` is removed, with the
/// conditions that read its alias and the elements left unused.
pub open spec fn nested_removed(c: StrategyCandidateView, idx: int) -> StrategyCandidateView {
    let removed = c.nested_indicators[idx];
    pruned(
        without_alias(
            StrategyCandidateView { nested_indicators: c.nested_indicators.remove(idx), ..c },
            removed.indicator.alias@,
        ),
    )
}

/// The outcomes of a nested-indicator mutation: nothing changed, or a
/// nested indicator removed (with what then goes unused) and, where the
/// available indicators hold one of its type and the candidate still has an
/// indicator, a nested indicator of that type added on a random indicator of
/// the candidate, at depth 1.
pub open spec fn nested_mutation(c: StrategyCandidateView, available: Seq<IndicatorInfo>, r: StrategyCandidateView) -> bool {
    ||| r == c
    ||| exists|idx: int|
        0 <= idx < c.nested_indicators.len() && {
            let base = #[trigger] nested_removed(c, idx);
            let kind = c.nested_indicators[idx].indicator.indicator_type@;
            ||| r == base && (base.indicators.len() == 0 || forall|j: int|
                0 <= j < available.len() ==> (#[trigger] available[j]).indicator_type@ != kind)
            ||| exists|j: int, k: int|
                0 <= j < available.len() && 0 <= k < base.indicators.len() && available[j].indicator_type@ == kind && r
                    == (StrategyCandidateView {
                    nested_indicators: base.nested_indicators.push(
                        NestedIndicator {
                            indicator: #[trigger] available[j],
                            input_indicator_alias: #[trigger] base.indicators[k].alias,
                            depth: 1,
                        },
                    ),
                    ..base
                })
        }
}

/// The positions of the available indicators of the type `kind`, in order.
pub open spec fn type_positions(available: Seq<IndicatorInfo>, kind: Seq<char>) -> Seq<int>
    decreases available.len(),
{
    if available.len() == 0 {
        Seq::empty()
    } else {
        let p = type_positions(available.drop_last(), kind);
        if available.last().indicator_type@ == kind {
            p.push(available.len() - 1)
        } else {
            p
        }
    }
}

/// A nested-indicator mutation on given draws: when `remove` and the
/// candidate has a nested indicator, the one at `which` (modulo their count)
/// is removed, with what then goes unused; then, when the available
/// indicators hold some of its type and the candidate still has an
/// indicator, the one at `kind_pick` (modulo their count) among those is
/// nested, at depth 1, on the candidate's indicator at `input_pick` (modulo
/// their count). Otherwise nothing changes.
pub open spec fn nested_mutation_on(
    c: StrategyCandidateView,
    available: Seq<IndicatorInfo>,
    remove: bool,
    which: nat,
    kind_pick: nat,
    input_pick: nat,
    r: StrategyCandidateView,
) -> bool {
    if remove && c.nested_indicators.len() > 0 {
        let idx = (which % c.nested_indicators.len()) as int;
        let base = nested_removed(c, idx);
        let same = type_positions(available, c.nested_indicators[idx].indicator.indicator_type@);
        if same.len() > 0 && base.indicators.len() > 0 {
            r == (StrategyCandidateView {
                nested_indicators: base.nested_indicators.push(
                    NestedIndicator {
                        indicator: available[same[(kind_pick % same.len()) as int]],
                        input_indicator_alias: base.indicators[(input_pick % base.indicators.len()) as int].alias,
                        depth: 1,
                    },
                ),
                ..base
            })
        } else {
            r == base
        }
    } else {
        r == c
    }
}

/// The positions of the available indicators of the type `kind`.
fn positions_of_type(available: &[IndicatorInfo], kind: &str) -> (r: Vec<usize>)
    ensures
        r@.len() == type_positions(available@, kind@).len(),
        forall|k: int| 0 <= k < r@.len() ==> #[trigger] r@[k] as int == type_positions(available@, kind@)[k],
        forall|k: int|
            0 <= k < r@.len() ==> #[trigger] r@[k] < available@.len() && available@[r@[k] as int].indicator_type@ == kind@,
        r@.len() == 0 <==> forall|k: int| 0 <= k < available@.len() ==> (#[trigger] available@[k]).indicator_type@ != kind@,
{
    let mut r: Vec<usize> = Vec::new();
    let mut j: usize = 0;
    while j < available.len()
        invariant
            j <= available@.len(),
            r@.len() == type_positions(available@.take(j as int), kind@).len(),
            forall|k: int| 0 <= k < r@.len() ==> #[trigger] r@[k] as int == type_positions(available@.take(j as int), kind@)[k],
            forall|k: int|
                0 <= k < r@.len() ==> #[trigger] r@[k] < available@.len() && available@[r@[k] as int].indicator_type@
                    == kind@,
            r@.len() == 0 <==> forall|k: int| 0 <= k < j ==> (#[trigger] available@[k]).indicator_type@ != kind@,
        decreases available@.len() - j,
    {
        assert(available@.take(j + 1).drop_last() =~= available@.take(j as int));
        if same_text(available[j].indicator_type.as_str(), kind) {
            r.push(j);
        }
        j = j + 1;
    }
    assert(available@.take(available@.len() as int) =~= available@);
    r
}

/// Removes the nested indicator at `idx`, the conditions that read its
/// alias and what then goes unused.
fn remove_nested_at(candidate: &mut StrategyCandidate, idx: usize)
    requires
        idx < old(candidate)@.nested_indicators.len(),
    ensures
        final(candidate)@ == nested_removed(old(candidate)@, idx as int),
{
    let ghost c = candidate@;
    let removed_alias = candidate.nested_indicators[idx].indicator.alias.clone();
    candidate.nested_indicators.remove(idx);
    remove_conditions_with_indicator(candidate, removed_alias.as_str());
    remove_unused_indicators(candidate);
}

/// Nests the available indicator at `kind_pick` (modulo their count) among
/// those of the type `kind` on the candidate's indicator at `input_pick`
/// (modulo their count), at depth 1; nothing when there is no such
/// available indicator or the candidate has no indicator.
fn add_nested_of_type(
    candidate: &mut StrategyCandidate,
    available_indicators: &[IndicatorInfo],
    kind: &str,
    kind_pick: usize,
    input_pick: usize,
)
    ensures
        ({
            let c = old(candidate)@;
            let same = type_positions(available_indicators@, kind@);
            if same.len() > 0 && c.indicators.len() > 0 {
                final(candidate)@ == (StrategyCandidateView {
                    nested_indicators: c.nested_indicators.push(
                        NestedIndicator {
                            indicator: available_indicators@[same[(kind_pick as nat % same.len()) as int]],
                            input_indicator_alias: c.indicators[(input_pick as nat % c.indicators.len()) as int].alias,
                            depth: 1,
                        },
                    ),
                    ..c
                })
            } else {
                final(candidate)@ == c
            }
        }),
{
    let ghost c = candidate@;
    let same = positions_of_type(available_indicators, kind);
    if same.len() > 0 && candidate.indicators.len() > 0 {
        let a = same[kind_pick % same.len()];
        let k = input_pick % candidate.indicators.len();
        let nested = NestedIndicator {
            indicator: available_indicators[a].clone(),
            input_indicator_alias: candidate.indicators[k].alias.clone(),
            depth: 1,
        };
        candidate.nested_indicators.push(nested);
        assert(candidate@.nested_indicators =~= c.nested_indicators.push(
            NestedIndicator {
                indicator: available_indicators@[a as int],
                input_indicator_alias: c.indicators[k as int].alias,
                depth: 1,
            },
        ));
    }
}

/// Mutates the nested indicators: with a chance of one in five, a random
/// nested indicator is removed, with the conditions that read it and what
/// then goes unused, and replaced by a random available indicator of its
/// type, nested on a random indicator of the candidate.
pub fn mutate_nested_indicators(candidate: &mut StrategyCandidate, available_indicators: &[IndicatorInfo])
    ensures
        nested_mutation(old(candidate)@, available_indicators@, final(candidate)@),
{
    let ghost c = candidate@;
    let mut rng = new_rng();
    if random_ratio(&mut rng, 1, 5) && candidate.nested_indicators.len() > 0 {
        let idx = random_below(&mut rng, candidate.nested_indicators.len());
        let removed_type = candidate.nested_indicators[idx].indicator.indicator_type.clone();
        remove_nested_at(candidate, idx);
        let same = positions_of_type(available_indicators, removed_type.as_str());
        let (kind_pick, input_pick) = if same.len() > 0 && candidate.indicators.len() > 0 {
            (random_below(&mut rng, same.len()), random_below(&mut rng, candidate.indicators.len()))
        } else {
            (0, 0)
        };
        add_nested_of_type(candidate, available_indicators, removed_type.as_str(), kind_pick, input_pick);
        proof {
            lemma_nested_outcome(c, available_indicators@, idx as int, kind_pick as nat, input_pick as nat, candidate@);
        }
    }
}

proof fn lemma_nested_outcome(
    c: StrategyCandidateView,
    available: Seq<IndicatorInfo>,
    idx: int,
    kind_pick: nat,
    input_pick: nat,
    r: StrategyCandidateView,
)
    requires
        0 <= idx < c.nested_indicators.len(),
        ({
            let base = nested_removed(c, idx);
            let same = type_positions(available, c.nested_indicators[idx].indicator.indicator_type@);
            if same.len() > 0 && base.indicators.len() > 0 {
                r == (StrategyCandidateView {
                    nested_indicators: base.nested_indicators.push(
                        NestedIndicator {
                            indicator: available[same[(kind_pick % same.len()) as int]],
                            input_indicator_alias: base.indicators[(input_pick % base.indicators.len()) as int].alias,
                            depth: 1,
                        },
                    ),
                    ..base
                })
            } else {
                r == base
            }
        }),
    ensures
        nested_mutation(c, available, r),
{
    let base = nested_removed(c, idx);
    let kind = c.nested_indicators[idx].indicator.indicator_type@;
    let same = type_positions(available, kind);
    lemma_type_positions(available, kind);
    if same.len() > 0 && base.indicators.len() > 0 {
        let j = same[(kind_pick % same.len()) as int];
        let k = (input_pick % base.indicators.len()) as int;
        assert(0 <= j < available.len() && available[j].indicator_type@ == kind);
        assert(r == (StrategyCandidateView {
            nested_indicators: base.nested_indicators.push(
                NestedIndicator { indicator: available[j], input_indicator_alias: base.indicators[k].alias, depth: 1 },
            ),
            ..base
        }));
    }
    assert(nested_removed(c, idx) == base);
}

proof fn lemma_type_positions(available: Seq<IndicatorInfo>, kind: Seq<char>)
    ensures
        forall|k: int|
            0 <= k < type_positions(available, kind).len() ==> 0 <= #[trigger] type_positions(available, kind)[k]
                < available.len() && available[type_positions(available, kind)[k]].indicator_type@ == kind,
        type_positions(available, kind).len() == 0 ==> forall|j: int|
            0 <= j < available.len() ==> (#[trigger] available[j]).indicator_type@ != kind,
    decreases available.len(),
{
    if available.len() > 0 {
        let t = available.drop_last();
        lemma_type_positions(t, kind);
        assert forall|j: int| type_positions(available, kind).len() == 0 && 0 <= j < available.len() implies (
        #[trigger] available[j]).indicator_type@ != kind by {
            if j < available.len() - 1 {
                assert(available[j] == t[j]);
            }
        }
    }
}

/// The nested-indicator mutation for given draws, as `nested_mutation_on`
/// says: the coin `remove` and the positions `which`, `kind_pick` and
/// `input_pick`.
pub fn apply_nested_mutation(
    candidate: &mut StrategyCandidate,
    available_indicators: &[IndicatorInfo],
    remove: bool,
    which: usize,
    kind_pick: usize,
    input_pick: usize,
)
    ensures
        nested_mutation_on(
            old(candidate)@,
            available_indicators@,
            remove,
            which as nat,
            kind_pick as nat,
            input_pick as nat,
            final(candidate)@,
        ),
        nested_mutation(old(candidate)@, available_indicators@, final(candidate)@),
{
    let ghost c = candidate@;
    if remove && candidate.nested_indicators.len() > 0 {
        let idx = which % candidate.nested_indicators.len();
        let removed_type = candidate.nested_indicators[idx].indicator.indicator_type.clone();
        remove_nested_at(candidate, idx);
        add_nested_of_type(candidate, available_indicators, removed_type.as_str(), kind_pick, input_pick);
        proof {
            lemma_nested_outcome(c, available_indicators@, idx as int, kind_pick as nat, input_pick as nat, candidate@);
        }
    }
}

/// The standard timeframes, in minutes: 1, 5, 15, 30 and 60 minutes, four
/// hours and a day.
pub open spec fn standard_minutes() -> Seq<u32> {
    seq![1u32, 5, 15, 30, 60, 240, 1440]
}

/// The outcomes of a timeframe mutation: a random timeframe of the
/// candidate removed; a random standard timeframe no shorter than the base
/// timeframe added, unless the candidate already has it; or, when no
/// standard timeframe is that long, nothing changed.
pub open spec fn timeframe_mutation(c: StrategyCandidateView, base: TimeFrame, r: StrategyCandidateView) -> bool {
    ||| exists|i: int|
        0 <= i < c.timeframes.len() && r == (StrategyCandidateView {
            timeframes: #[trigger] c.timeframes.remove(i),
            ..c
        })
    ||| exists|m: int|
        0 <= m < standard_minutes().len() && #[trigger] standard_minutes()[m] >= base.minutes && r == (
        if c.timeframes.contains(TimeFrame { minutes: standard_minutes()[m] }) {
            c
        } else {
            StrategyCandidateView { timeframes: c.timeframes.push(TimeFrame { minutes: standard_minutes()[m] }), ..c }
        })
    ||| base.minutes > 1440 && r == c
}

/// The minutes of `s` that are at least `base`, in order.
pub open spec fn at_least(s: Seq<u32>, base: u32) -> Seq<u32>
    decreases s.len(),
{
    if s.len() == 0 {
        Seq::empty()
    } else {
        let p = at_least(s.drop_last(), base);
        if s.last() >= base {
            p.push(s.last())
        } else {
            p
        }
    }
}

/// A timeframe mutation on given draws: when `remove` and the candidate has
/// a timeframe, the one at `pick` (modulo their count) goes; otherwise the
/// standard timeframe at `pick` (modulo their count) among those no shorter
/// than the base is added, unless the candidate has it; when there is none,
/// nothing changes.
pub open spec fn timeframe_mutation_on(
    c: StrategyCandidateView,
    base: TimeFrame,
    remove: bool,
    pick: nat,
    r: StrategyCandidateView,
) -> bool {
    let av = at_least(standard_minutes(), base.minutes);
    if remove && c.timeframes.len() > 0 {
        r == (StrategyCandidateView { timeframes: c.timeframes.remove((pick % c.timeframes.len()) as int), ..c })
    } else if av.len() > 0 {
        let tf = TimeFrame { minutes: av[(pick % av.len()) as int] };
        r == (if c.timeframes.contains(tf) {
            c
        } else {
            StrategyCandidateView { timeframes: c.timeframes.push(tf), ..c }
        })
    } else {
        r == c
    }
}

proof fn lemma_at_least(s: Seq<u32>, base: u32)
    ensures
        forall|k: int| 0 <= k < at_least(s, base).len() ==> #[trigger] at_least(s, base)[k] >= base && s.contains(
            at_least(s, base)[k],
        ),
        at_least(s, base).len() == 0 ==> forall|m: int| 0 <= m < s.len() ==> #[trigger] s[m] < base,
    decreases s.len(),
{
    if s.len() > 0 {
        let t = s.drop_last();
        lemma_at_least(t, base);
        let p = at_least(t, base);
        assert forall|k: int| 0 <= k < at_least(s, base).len() implies #[trigger] at_least(s, base)[k] >= base
            && s.contains(at_least(s, base)[k]) by {
            if k < p.len() {
                assert(at_least(s, base)[k] == p[k]);
                assert(t.contains(p[k]));
                let q = choose|q: int| 0 <= q < t.len() && t[q] == p[k];
                assert(s[q] == p[k]);
            } else {
                assert(s[s.len() - 1] == s.last());
            }
        }
        assert forall|m: int| at_least(s, base).len() == 0 && 0 <= m < s.len() implies #[trigger] s[m] < base by {
            if m < s.len() - 1 {
                assert(s[m] == t[m]);
            }
        }
    }
}

/// Mutates the timeframes: with a chance of one in two, a random timeframe
/// of the candidate is removed; otherwise a random standard timeframe no
/// shorter than the base timeframe is added, unless the candidate has it.
pub fn mutate_timeframes(candidate: &mut StrategyCandidate, base_timeframe: TimeFrame)
    ensures
        timeframe_mutation(old(candidate)@, base_timeframe, final(candidate)@),
{
    let mut rng = new_rng();
    let remove = candidate.timeframes.len() > 0 && random_ratio(&mut rng, 1, 2);
    let available = standard_at_least(base_timeframe.duration());
    let pick = if remove {
        random_below(&mut rng, candidate.timeframes.len())
    } else if available.len() > 0 {
        random_below(&mut rng, available.len())
    } else {
        0
    };
    apply_timeframe_mutation(candidate, base_timeframe, remove, pick);
}

/// The standard minutes no shorter than `base`, in order.
fn standard_at_least(base: u32) -> (r: Vec<u32>)
    ensures
        r@ == at_least(standard_minutes(), base),
{
    let all: Vec<u32> = vec![1, 5, 15, 30, 60, 240, 1440];
    assert(all@ == standard_minutes());
    let mut available: Vec<u32> = Vec::new();
    let mut i: usize = 0;
    while i < all.len()
        invariant
            i <= all@.len(),
            all@ == standard_minutes(),
            available@ == at_least(all@.take(i as int), base),
        decreases all@.len() - i,
    {
        assert(all@.take(i + 1).drop_last() =~= all@.take(i as int));
        if all[i] >= base {
            available.push(all[i]);
        }
        i = i + 1;
    }
    assert(all@.take(all@.len() as int) =~= all@);
    available
}

/// The timeframe mutation for given draws, as `timeframe_mutation_on` says:
/// the coin `remove` and the position `pick`.
pub fn apply_timeframe_mutation(candidate: &mut StrategyCandidate, base_timeframe: TimeFrame, remove: bool, pick: usize)
    ensures
        timeframe_mutation_on(old(candidate)@, base_timeframe, remove, pick as nat, final(candidate)@),
        timeframe_mutation(old(candidate)@, base_timeframe, final(candidate)@),
{
    let ghost c = candidate@;
    let available = standard_at_least(base_timeframe.duration());
    proof {
        lemma_at_least(standard_minutes(), base_timeframe.minutes);
    }
    if remove && candidate.timeframes.len() > 0 {
        let idx = pick % candidate.timeframes.len();
        candidate.timeframes.remove(idx);
        assert(candidate@.timeframes =~= c.timeframes.remove(idx as int));
        assert(candidate@ == (StrategyCandidateView { timeframes: c.timeframes.remove(idx as int), ..c }));
    } else if available.len() > 0 {
        let q = pick % available.len();
        let minutes = available[q];
        let tf = TimeFrame::from_minutes(minutes);
        assert(available@[q as int] >= base_timeframe.minutes && standard_minutes().contains(available@[q as int]));
        let ghost m = choose|m: int| 0 <= m < standard_minutes().len() && standard_minutes()[m] == minutes;
        assert(standard_minutes()[m] >= base_timeframe.minutes);
        let mut present = false;
        let mut k: usize = 0;
        while k < candidate.timeframes.len()
            invariant
                k <= candidate.timeframes@.len(),
                candidate@ == c,
                present <==> exists|w: int| 0 <= w < k && candidate.timeframes@[w] == tf,
            decreases candidate.timeframes@.len() - k,
        {
            if candidate.timeframes[k] == tf {
                present = true;
            }
            k = k + 1;
        }
        if !present {
            candidate.timeframes.push(tf);
        }
        assert(present == c.timeframes.contains(tf));
    } else {
        assert(standard_minutes()[6] < base_timeframe.minutes);
    }
}


/// The candidate has a way to exit a position: an exit condition, a stop
/// handler or a take handler.
pub open spec fn has_exit_route(c: StrategyCandidateView) -> bool {
    c.exit_conditions.len() > 0 || c.stop_handlers.len() > 0 || c.take_handlers.len() > 0
}

/// Mutating the stop or the take handlers never takes away a candidate's
/// last way to exit a position.
pub proof fn law_handler_mutations_keep_an_exit(
    c: StrategyCandidateView,
    configs: Seq<StopHandlerConfig>,
    after_stop: StrategyCandidateView,
    after_take: StrategyCandidateView,
)
    requires
        has_exit_route(c),
        stop_mutation(c, configs, after_stop),
        take_mutation(c, configs, after_take),
    ensures
        has_exit_route(after_stop),
        has_exit_route(after_take),
{
    if can_remove_stop(c) && exists|i: int|
        0 <= i < c.stop_handlers.len() && after_stop == (StrategyCandidateView {
            stop_handlers: #[trigger] c.stop_handlers.remove(i),
            ..c
        }) {
        let i = choose|i: int|
            0 <= i < c.stop_handlers.len() && after_stop == (StrategyCandidateView {
                stop_handlers: #[trigger] c.stop_handlers.remove(i),
                ..c
            });
        assert(after_stop.stop_handlers.len() == c.stop_handlers.len() - 1);
    } else if exists|j: int, h: StopHandlerView|
        0 <= j < configs.len() && configs[j].stop_type@ == "stop_loss"@ && made_from(h, #[trigger] configs[j], "stop_"@)
            && after_stop == (StrategyCandidateView { stop_handlers: #[trigger] c.stop_handlers.push(h), ..c }) {
        let (j, h) = choose|j: int, h: StopHandlerView|
            0 <= j < configs.len() && configs[j].stop_type@ == "stop_loss"@ && made_from(h, #[trigger] configs[j], "stop_"@)
                && after_stop == (StrategyCandidateView { stop_handlers: #[trigger] c.stop_handlers.push(h), ..c });
        assert(after_stop.stop_handlers.len() == c.stop_handlers.len() + 1);
    }
    if can_remove_take(c) && exists|i: int|
        0 <= i < c.take_handlers.len() && after_take == (StrategyCandidateView {
            take_handlers: #[trigger] c.take_handlers.remove(i),
            ..c
        }) {
        let i = choose|i: int|
            0 <= i < c.take_handlers.len() && after_take == (StrategyCandidateView {
                take_handlers: #[trigger] c.take_handlers.remove(i),
                ..c
            });
        assert(after_take.take_handlers.len() == c.take_handlers.len() - 1);
    } else if can_add_take(c) && exists|j: int, h: StopHandlerView|
        0 <= j < configs.len() && configs[j].stop_type@ == "take_profit"@ && made_from(h, #[trigger] configs[j], "take_"@)
            && after_take == (StrategyCandidateView { take_handlers: #[trigger] c.take_handlers.push(h), ..c }) {
        let (j, h) = choose|j: int, h: StopHandlerView|
            0 <= j < configs.len() && configs[j].stop_type@ == "take_profit"@ && made_from(h, #[trigger] configs[j], "take_"@)
                && after_take == (StrategyCandidateView { take_handlers: #[trigger] c.take_handlers.push(h), ..c });
        assert(after_take.take_handlers.len() == c.take_handlers.len() + 1);
    }
}


/// Draws the removal coin, the position and the identifier's number of a
/// stop-handler mutation of the candidate, as `mutate_stop_handlers` does.
pub(crate) fn draw_stop(candidate: &StrategyCandidate, stop_handler_configs: &[StopHandlerConfig], rng: &mut ThreadRng) -> (
    bool,
    usize,
    u32,
) {
    let can_remove = candidate.stop_handlers.len() > 0 && (candidate.stop_handlers.len() > 1
        || candidate.exit_conditions.len() > 0 || candidate.take_handlers.len() > 0);
    let remove = random_ratio(rng, 3, 10);
    let stops = positions_of_kind(stop_handler_configs, "stop_loss");
    if remove && can_remove {
        (remove, random_below(rng, candidate.stop_handlers.len()), 0)
    } else if stops.len() > 0 {
        let pick = random_below(rng, stops.len());
        (remove, pick, random_u32(rng))
    } else {
        (remove, 0, 0)
    }
}

/// Draws the removal coin, the position and the identifier's number of a
/// take-handler mutation of the candidate, as `mutate_take_handlers` does.
pub(crate) fn draw_take(candidate: &StrategyCandidate, stop_handler_configs: &[StopHandlerConfig], rng: &mut ThreadRng) -> (
    bool,
    usize,
    u32,
) {
    let has_exit = candidate.exit_conditions.len() > 0;
    let has_stop = candidate.stop_handlers.len() > 0;
    let can_remove = candidate.take_handlers.len() > 0 && (candidate.take_handlers.len() > 1 || has_exit || has_stop);
    let remove = random_ratio(rng, 3, 10);
    let takes = positions_of_kind(stop_handler_configs, "take_profit");
    if remove && can_remove {
        (remove, random_below(rng, candidate.take_handlers.len()), 0)
    } else if (has_exit || has_stop) && takes.len() > 0 {
        let pick = random_below(rng, takes.len());
        (remove, pick, random_u32(rng))
    } else {
        (remove, 0, 0)
    }
}

/// Draws the removal coin and the positions of a nested-indicator mutation
/// of the candidate, as `mutate_nested_indicators` does.
pub(crate) fn draw_nested(candidate: &StrategyCandidate, available_indicators: &[IndicatorInfo], rng: &mut ThreadRng) -> (
    bool,
    usize,
    usize,
    usize,
) {
    let remove = random_ratio(rng, 1, 5) && candidate.nested_indicators.len() > 0;
    if !remove {
        return (false, 0, 0, 0);
    }
    let idx = random_below(rng, candidate.nested_indicators.len());
    let removed_type = candidate.nested_indicators[idx].indicator.indicator_type.clone();
    let mut probe = candidate.clone();
    remove_nested_at(&mut probe, idx);
    let same = positions_of_type(available_indicators, removed_type.as_str());
    if same.len() > 0 && probe.indicators.len() > 0 {
        let kind_pick = random_below(rng, same.len());
        let input_pick = random_below(rng, probe.indicators.len());
        (true, idx, kind_pick, input_pick)
    } else {
        (true, idx, 0, 0)
    }
}

/// Draws the removal coin and the position of a timeframe mutation of the
/// candidate, as `mutate_timeframes` does.
pub(crate) fn draw_timeframe(candidate: &StrategyCandidate, base_timeframe: TimeFrame, rng: &mut ThreadRng) -> (bool, usize) {
    let remove = candidate.timeframes.len() > 0 && random_ratio(rng, 1, 2);
    let available = standard_at_least(base_timeframe.duration());
    let pick = if remove {
        random_below(rng, candidate.timeframes.len())
    } else if available.len() > 0 {
        random_below(rng, available.len())
    } else {
        0
    };
    (remove, pick)
}

/// Mutating the stop handlers touches nothing but the stop handlers and
/// brings in only "stop_loss" handlers; mutating the take handlers touches
/// nothing but the take handlers, brings in only "take_profit" handlers,
/// and adds one only to a candidate that has an exit condition or a stop
/// handler.
pub proof fn law_handler_mutations_add_right_kinds(
    c: StrategyCandidateView,
    configs: Seq<StopHandlerConfig>,
    after_stop: StrategyCandidateView,
    after_take: StrategyCandidateView,
)
    requires
        stop_mutation(c, configs, after_stop),
        take_mutation(c, configs, after_take),
    ensures
        (StrategyCandidateView { stop_handlers: c.stop_handlers, ..after_stop }) == c,
        (StrategyCandidateView { take_handlers: c.take_handlers, ..after_take }) == c,
        forall|k: int|
            0 <= k < after_stop.stop_handlers.len() ==> c.stop_handlers.contains(#[trigger] after_stop.stop_handlers[k])
                || after_stop.stop_handlers[k].stop_type@ == "stop_loss"@,
        forall|k: int|
            0 <= k < after_take.take_handlers.len() ==> c.take_handlers.contains(#[trigger] after_take.take_handlers[k])
                || after_take.take_handlers[k].stop_type@ == "take_profit"@,
        after_take.take_handlers.len() > c.take_handlers.len() ==> can_add_take(c),
{
    if can_remove_stop(c) && exists|i: int|
        0 <= i < c.stop_handlers.len() && after_stop == (StrategyCandidateView {
            stop_handlers: #[trigger] c.stop_handlers.remove(i),
            ..c
        }) {
        let i = choose|i: int|
            0 <= i < c.stop_handlers.len() && after_stop == (StrategyCandidateView {
                stop_handlers: #[trigger] c.stop_handlers.remove(i),
                ..c
            });
        assert forall|k: int| 0 <= k < after_stop.stop_handlers.len() implies c.stop_handlers.contains(
            #[trigger] after_stop.stop_handlers[k],
        ) by {
            if k < i {
                assert(after_stop.stop_handlers[k] == c.stop_handlers[k]);
            } else {
                assert(after_stop.stop_handlers[k] == c.stop_handlers[k + 1]);
            }
        }
    } else if exists|j: int, h: StopHandlerView|
        0 <= j < configs.len() && configs[j].stop_type@ == "stop_loss"@ && made_from(h, #[trigger] configs[j], "stop_"@)
            && after_stop == (StrategyCandidateView { stop_handlers: #[trigger] c.stop_handlers.push(h), ..c }) {
        let (j, h) = choose|j: int, h: StopHandlerView|
            0 <= j < configs.len() && configs[j].stop_type@ == "stop_loss"@ && made_from(h, #[trigger] configs[j], "stop_"@)
                && after_stop == (StrategyCandidateView { stop_handlers: #[trigger] c.stop_handlers.push(h), ..c });
        assert forall|k: int| 0 <= k < after_stop.stop_handlers.len() implies c.stop_handlers.contains(
            #[trigger] after_stop.stop_handlers[k],
        ) || after_stop.stop_handlers[k].stop_type@ == "stop_loss"@ by {
            if k < c.stop_handlers.len() {
                assert(after_stop.stop_handlers[k] == c.stop_handlers[k]);
            }
        }
    } else {
        assert forall|k: int| 0 <= k < after_stop.stop_handlers.len() implies c.stop_handlers.contains(
            #[trigger] after_stop.stop_handlers[k],
        ) by {
            assert(after_stop.stop_handlers[k] == c.stop_handlers[k]);
        }
    }
    if can_remove_take(c) && exists|i: int|
        0 <= i < c.take_handlers.len() && after_take == (StrategyCandidateView {
            take_handlers: #[trigger] c.take_handlers.remove(i),
            ..c
        }) {
        let i = choose|i: int|
            0 <= i < c.take_handlers.len() && after_take == (StrategyCandidateView {
                take_handlers: #[trigger] c.take_handlers.remove(i),
                ..c
            });
        assert forall|k: int| 0 <= k < after_take.take_handlers.len() implies c.take_handlers.contains(
            #[trigger] after_take.take_handlers[k],
        ) by {
            if k < i {
                assert(after_take.take_handlers[k] == c.take_handlers[k]);
            } else {
                assert(after_take.take_handlers[k] == c.take_handlers[k + 1]);
            }
        }
    } else if can_add_take(c) && exists|j: int, h: StopHandlerView|
        0 <= j < configs.len() && configs[j].stop_type@ == "take_profit"@ && made_from(h, #[trigger] configs[j], "take_"@)
            && after_take == (StrategyCandidateView { take_handlers: #[trigger] c.take_handlers.push(h), ..c }) {
        let (j, h) = choose|j: int, h: StopHandlerView|
            0 <= j < configs.len() && configs[j].stop_type@ == "take_profit"@ && made_from(h, #[trigger] configs[j], "take_"@)
                && after_take == (StrategyCandidateView { take_handlers: #[trigger] c.take_handlers.push(h), ..c });
        assert forall|k: int| 0 <= k < after_take.take_handlers.len() implies c.take_handlers.contains(
            #[trigger] after_take.take_handlers[k],
        ) || after_take.take_handlers[k].stop_type@ == "take_profit"@ by {
            if k < c.take_handlers.len() {
                assert(after_take.take_handlers[k] == c.take_handlers[k]);
            }
        }
    } else {
        assert forall|k: int| 0 <= k < after_take.take_handlers.len() implies c.take_handlers.contains(
            #[trigger] after_take.take_handlers[k],
        ) by {
            assert(after_take.take_handlers[k] == c.take_handlers[k]);
        }
    }
}

/// A timeframe mutation touches nothing but the timeframes, brings in only
/// a standard timeframe no shorter than the base one, never repeats a
/// timeframe that was not repeated, and changes the number of timeframes by
/// one at most.
pub proof fn law_timeframe_mutation_sound(c: StrategyCandidateView, base: TimeFrame, r: StrategyCandidateView)
    requires
        timeframe_mutation(c, base, r),
    ensures
        (StrategyCandidateView { timeframes: c.timeframes, ..r }) == c,
        forall|k: int|
            0 <= k < r.timeframes.len() ==> c.timeframes.contains(#[trigger] r.timeframes[k]) || (
            standard_minutes().contains(r.timeframes[k].minutes) && r.timeframes[k].minutes >= base.minutes),
        c.timeframes.no_duplicates() ==> r.timeframes.no_duplicates(),
        r.timeframes.len() + 1 >= c.timeframes.len() && r.timeframes.len() <= c.timeframes.len() + 1,
{
    if exists|i: int|
        0 <= i < c.timeframes.len() && r == (StrategyCandidateView { timeframes: #[trigger] c.timeframes.remove(i), ..c }) {
        let i = choose|i: int|
            0 <= i < c.timeframes.len() && r == (StrategyCandidateView {
                timeframes: #[trigger] c.timeframes.remove(i),
                ..c
            });
        assert forall|k: int| 0 <= k < r.timeframes.len() implies c.timeframes.contains(#[trigger] r.timeframes[k]) by {
            if k < i {
                assert(r.timeframes[k] == c.timeframes[k]);
            } else {
                assert(r.timeframes[k] == c.timeframes[k + 1]);
            }
        }
        if c.timeframes.no_duplicates() {
            assert forall|a: int, b: int| 0 <= a < b < r.timeframes.len() implies r.timeframes[a] != r.timeframes[b] by {
                let a2 = if a < i { a } else { a + 1 };
                let b2 = if b < i { b } else { b + 1 };
                assert(r.timeframes[a] == c.timeframes[a2]);
                assert(r.timeframes[b] == c.timeframes[b2]);
            }
        }
    } else if exists|m: int|
        0 <= m < standard_minutes().len() && #[trigger] standard_minutes()[m] >= base.minutes && r == (
        if c.timeframes.contains(TimeFrame { minutes: standard_minutes()[m] }) {
            c
        } else {
            StrategyCandidateView { timeframes: c.timeframes.push(TimeFrame { minutes: standard_minutes()[m] }), ..c }
        }) {
        let m = choose|m: int|
            0 <= m < standard_minutes().len() && #[trigger] standard_minutes()[m] >= base.minutes && r == (
            if c.timeframes.contains(TimeFrame { minutes: standard_minutes()[m] }) {
                c
            } else {
                StrategyCandidateView { timeframes: c.timeframes.push(TimeFrame { minutes: standard_minutes()[m] }), ..c }
            });
        let tf = TimeFrame { minutes: standard_minutes()[m] };
        assert(standard_minutes().contains(tf.minutes));
        if !c.timeframes.contains(tf) {
            assert forall|k: int| 0 <= k < r.timeframes.len() implies c.timeframes.contains(#[trigger] r.timeframes[k])
                || (standard_minutes().contains(r.timeframes[k].minutes) && r.timeframes[k].minutes >= base.minutes) by {
                if k < c.timeframes.len() {
                    assert(r.timeframes[k] == c.timeframes[k]);
                } else {
                    assert(r.timeframes[k] == tf);
                }
            }
            if c.timeframes.no_duplicates() {
                assert forall|a: int, b: int| 0 <= a < b < r.timeframes.len() implies r.timeframes[a] != r.timeframes[b] by {
                    if b == c.timeframes.len() {
                        assert(r.timeframes[a] == c.timeframes[a]);
                        assert(r.timeframes[b] == tf);
                    } else {
                        assert(r.timeframes[a] == c.timeframes[a]);
                        assert(r.timeframes[b] == c.timeframes[b]);
                    }
                }
            }
        } else {
            assert forall|k: int| 0 <= k < r.timeframes.len() implies c.timeframes.contains(#[trigger] r.timeframes[k]) by {
                assert(r.timeframes[k] == c.timeframes[k]);
            }
        }
    } else {
        assert forall|k: int| 0 <= k < r.timeframes.len() implies c.timeframes.contains(#[trigger] r.timeframes[k]) by {
            assert(r.timeframes[k] == c.timeframes[k]);
        }
    }
}

} // verus!
