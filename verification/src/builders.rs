//! Steps of candidate building that add structure at random: nesting an
//! indicator on another one, and adding timeframes above the base one.

use vstd::prelude::*;
use rand::rngs::ThreadRng;
use crate::build_rules::{
    can_accept_nested_input, get_allowed_conditions, has_absolute_threshold, has_percent_of_price_threshold, lookup_rules,
    BuildRulesRegistry, ThresholdType,
};
use crate::config::{CandidateBuilderConfig, ConditionProbabilities, ElementConstraints, TimeframeProbabilities};
use crate::model::{ConditionKind, ConditionOperator, IndicatorInfo, NestedIndicator, TimeFrame};
use crate::random::{certain, random_below, random_below_u64, random_ratio, should_add};
use crate::rules::CandidateElements;
use crate::selection::{
    can_compare_indicators, compare_allowed, excluded_name, find_nested, first_nested, input_of, input_of_exec,
    is_oscillator_used_in_nested, trend_text, used_as_input, weighted_choice_for_oscillator_based,
    weighted_condition_type_choice, weighted_kind_allowed, weighted_oscillator_kind_allowed,
};
use crate::text::{owned, same_text, text_is};

verus! {

/// The deepest nesting among the nested indicators, 0 when there is none.
pub open spec fn max_depth_of(ns: Seq<NestedIndicator>) -> nat
    decreases ns.len(),
{
    if ns.len() == 0 {
        0
    } else {
        let m = max_depth_of(ns.drop_last());
        if ns.last().depth > m {
            ns.last().depth as nat
        } else {
            m
        }
    }
}

/// The depth of the indicator with the alias: that of the first nested
/// indicator with it, 0 for a plain indicator.
pub open spec fn input_depth(ns: Seq<NestedIndicator>, alias: Seq<char>) -> nat {
    match first_nested(ns, alias) {
        Some(j) => ns[j].depth as nat,
        None => 0,
    }
}

/// The indicators that a new nested indicator may take as input: the plain
/// ones, then the nested ones.
pub open spec fn bases(indicators: Seq<IndicatorInfo>, ns: Seq<NestedIndicator>) -> Seq<IndicatorInfo> {
    indicators + ns.map_values(|n: NestedIndicator| n.indicator)
}

/// `n` wraps the indicator `wrapper` around `input` at depth `depth`: the
/// wrapper's name and type, the alias "{wrapper}_on_{input}", indicator
/// input accepted and of the type "indicator".
pub open spec fn wraps(n: NestedIndicator, wrapper: IndicatorInfo, input: IndicatorInfo, depth: nat) -> bool {
    &&& n.indicator.name == wrapper.name
    &&& n.indicator.alias@ == wrapper.alias@ + "_on_"@ + input.alias@
    &&& n.indicator.indicator_type == wrapper.indicator_type
    &&& n.indicator.can_use_indicator_input
    &&& n.indicator.input_type@ == "indicator"@
    &&& n.input_indicator_alias == input.alias
    &&& n.depth == depth
}

/// `r` is `ns` with one nested indicator more: an indicator of `available`
/// that `nestable` admits, wrapped around one of the candidate's
/// indicators (there is at least one plain indicator), one level deeper
/// than that input, where neither the deepest nesting nor the input's depth
/// has reached `max_depth` and no nested indicator has the new alias.
pub open spec fn nested_onto(
    indicators: Seq<IndicatorInfo>,
    ns: Seq<NestedIndicator>,
    nestable: spec_fn(IndicatorInfo) -> bool,
    available: Seq<IndicatorInfo>,
    max_depth: nat,
    r: Seq<NestedIndicator>,
) -> bool {
    exists|i: int, w: int, n: NestedIndicator|
        #![trigger bases(indicators, ns)[i], available[w], ns.push(n)]
        {
            let input = bases(indicators, ns)[i];
            &&& indicators.len() > 0
            &&& max_depth_of(ns) < max_depth
            &&& 0 <= i < bases(indicators, ns).len()
            &&& 0 <= w < available.len()
            &&& nestable(available[w])
            &&& input_depth(ns, input.alias@) < max_depth
            &&& wraps(n, available[w], input, input_depth(ns, input.alias@) + 1)
            &&& first_nested(ns, n.indicator.alias@) is None
            &&& r == ns.push(n)
        }
}

/// A nesting cannot fail, whatever is drawn: the candidate has a plain
/// indicator, no nesting has reached `max_depth`, `available` holds an
/// indicator that `nestable` admits, and no nested indicator has the alias
/// of a wrapping of such an indicator around any indicator of the
/// candidate.
pub open spec fn nesting_assured(
    indicators: Seq<IndicatorInfo>,
    ns: Seq<NestedIndicator>,
    nestable: spec_fn(IndicatorInfo) -> bool,
    available: Seq<IndicatorInfo>,
    max_depth: nat,
) -> bool {
    &&& indicators.len() > 0
    &&& max_depth_of(ns) < max_depth
    &&& exists|w: int| 0 <= w < available.len() && nestable(#[trigger] available[w])
    &&& forall|i: int, w: int|
        #![trigger available[w], bases(indicators, ns)[i]]
        0 <= i < bases(indicators, ns).len() && 0 <= w < available.len() && nestable(available[w]) ==> first_nested(
            ns,
            available[w].alias@ + "_on_"@ + bases(indicators, ns)[i].alias@,
        ) is None
}

proof fn lemma_depth_within(ns: Seq<NestedIndicator>)
    ensures
        forall|j: int| 0 <= j < ns.len() ==> (#[trigger] ns[j]).depth <= max_depth_of(ns),
    decreases ns.len(),
{
    if ns.len() > 0 {
        lemma_depth_within(ns.drop_last());
        assert forall|j: int| 0 <= j < ns.len() implies (#[trigger] ns[j]).depth <= max_depth_of(ns) by {
            if j < ns.len() - 1 {
                assert(ns.drop_last()[j] == ns[j]);
            }
        }
    }
}

fn max_depth_exec(ns: &Vec<NestedIndicator>) -> (r: usize)
    ensures
        r == max_depth_of(ns@),
{
    let mut m: usize = 0;
    let mut i: usize = 0;
    while i < ns.len()
        invariant
            i <= ns@.len(),
            m == max_depth_of(ns@.take(i as int)),
        decreases ns@.len() - i,
    {
        assert(ns@.take(i + 1).drop_last() =~= ns@.take(i as int));
        if ns[i].depth > m {
            m = ns[i].depth;
        }
        i = i + 1;
    }
    assert(ns@.take(ns@.len() as int) =~= ns@);
    m
}

/// The positions of the indicators of `available` that `pred` admits, in
/// order.
pub open spec fn admitted_positions(available: Seq<IndicatorInfo>, pred: spec_fn(IndicatorInfo) -> bool) -> Seq<int>
    decreases available.len(),
{
    if available.len() == 0 {
        Seq::empty()
    } else {
        let p = admitted_positions(available.drop_last(), pred);
        if pred(available.last()) {
            p.push(available.len() - 1)
        } else {
            p
        }
    }
}

proof fn lemma_admitted_positions(available: Seq<IndicatorInfo>, pred: spec_fn(IndicatorInfo) -> bool)
    ensures
        forall|k: int|
            0 <= k < admitted_positions(available, pred).len() ==> 0 <= #[trigger] admitted_positions(available, pred)[k]
                < available.len() && pred(available[admitted_positions(available, pred)[k]]),
        (exists|w: int| 0 <= w < available.len() && pred(#[trigger] available[w])) ==> admitted_positions(
            available,
            pred,
        ).len() > 0,
    decreases available.len(),
{
    if available.len() > 0 {
        let t = available.drop_last();
        lemma_admitted_positions(t, pred);
        if exists|w: int| 0 <= w < available.len() && pred(#[trigger] available[w]) {
            let w = choose|w: int| 0 <= w < available.len() && pred(#[trigger] available[w]);
            if w < available.len() - 1 {
                assert(t[w] == available[w]);
            }
        }
    }
}

/// A nesting for given draws: with the coin `add`, where the candidate has
/// a plain indicator and no nesting has reached `max_depth`, the indicator
/// at `input_pos` (modulo their count) among the candidate's plain then
/// nested indicators is the input; where its depth is below `max_depth` and
/// `available` holds indicators that `pred` admits, the one at `wrapper_pos`
/// (modulo their count) among those wraps it, one level deeper, unless a
/// nested indicator already has the new alias. Otherwise nothing changes.
pub open spec fn nesting_on(
    indicators: Seq<IndicatorInfo>,
    ns: Seq<NestedIndicator>,
    pred: spec_fn(IndicatorInfo) -> bool,
    available: Seq<IndicatorInfo>,
    max_depth: nat,
    add: bool,
    input_pos: nat,
    wrapper_pos: nat,
    r: Seq<NestedIndicator>,
) -> bool {
    let all = bases(indicators, ns);
    let ps = admitted_positions(available, pred);
    if !add || indicators.len() == 0 || max_depth_of(ns) >= max_depth {
        r == ns
    } else {
        let input = all[(input_pos % all.len()) as int];
        let depth = input_depth(ns, input.alias@);
        if depth >= max_depth || ps.len() == 0 {
            r == ns
        } else {
            let wrapper = available[ps[(wrapper_pos % ps.len()) as int]];
            if first_nested(ns, wrapper.alias@ + "_on_"@ + input.alias@) is Some {
                r == ns
            } else {
                r.len() == ns.len() + 1 && r == ns.push(r.last()) && wraps(r.last(), wrapper, input, depth + 1)
            }
        }
    }
}

/// The candidate's plain indicators, then its nested ones.
fn bases_exec<'a>(indicators: &'a Vec<IndicatorInfo>, nested: &'a Vec<NestedIndicator>) -> (r: Vec<&'a IndicatorInfo>)
    ensures
        r@.len() == bases(indicators@, nested@).len(),
        forall|q: int| 0 <= q < r@.len() ==> *(#[trigger] r@[q]) == bases(indicators@, nested@)[q],
{
    let ghost all = bases(indicators@, nested@);
    let mut base: Vec<&IndicatorInfo> = Vec::new();
    let mut i: usize = 0;
    while i < indicators.len()
        invariant
            i <= indicators@.len(),
            all == bases(indicators@, nested@),
            base@.len() == i,
            forall|q: int| 0 <= q < i ==> *(#[trigger] base@[q]) == all[q],
        decreases indicators@.len() - i,
    {
        base.push(&indicators[i]);
        i = i + 1;
    }
    let mut i: usize = 0;
    while i < nested.len()
        invariant
            i <= nested@.len(),
            all == bases(indicators@, nested@),
            base@.len() == indicators@.len() + i,
            forall|q: int| 0 <= q < indicators@.len() + i ==> *(#[trigger] base@[q]) == all[q],
        decreases nested@.len() - i,
    {
        base.push(&nested[i].indicator);
        i = i + 1;
    }
    base
}

/// Nests, for given draws, as `nesting_on` says, where `nestable` holds the
/// positions that `pred` admits; tells whether it did.
fn nest_on_draws(
    indicators: &Vec<IndicatorInfo>,
    nested: &mut Vec<NestedIndicator>,
    available: &[IndicatorInfo],
    nestable: &Vec<usize>,
    max_depth: usize,
    Ghost(pred): Ghost<spec_fn(IndicatorInfo) -> bool>,
    input_pos: usize,
    wrapper_pos: usize,
) -> (r: bool)
    requires
        nestable@.len() == admitted_positions(available@, pred).len(),
        forall|k: int| 0 <= k < nestable@.len() ==> #[trigger] nestable@[k] as int == admitted_positions(available@, pred)[k],
    ensures
        nesting_on(indicators@, old(nested)@, pred, available@, max_depth as nat, true, input_pos as nat, wrapper_pos as nat, final(nested)@),
        r ==> nested_onto(indicators@, old(nested)@, pred, available@, max_depth as nat, final(nested)@),
        !r ==> final(nested)@ == old(nested)@,
        nesting_assured(indicators@, old(nested)@, pred, available@, max_depth as nat) ==> r,
{
    let ghost ns = nested@;
    let ghost assured = nesting_assured(indicators@, ns, pred, available@, max_depth as nat);
    proof {
        lemma_admitted_positions(available@, pred);
    }
    if indicators.len() == 0 {
        return false;
    }
    if max_depth_exec(nested) >= max_depth {
        return false;
    }
    let ghost all = bases(indicators@, ns);
    let base = bases_exec(indicators, nested);
    let k = input_pos % base.len();
    let input: &IndicatorInfo = base[k];
    assert(*input == all[k as int]);
    let depth: usize = match find_nested(nested.as_slice(), &input.alias) {
        Some(j) => nested[j].depth,
        None => 0,
    };
    proof {
        lemma_depth_within(ns);
        if assured {
            assert(depth < max_depth);
            let w0 = choose|w: int| 0 <= w < available@.len() && pred(#[trigger] available@[w]);
            assert(nestable@.len() > 0);
        }
    }
    if depth >= max_depth || nestable.len() == 0 {
        return false;
    }
    let q = wrapper_pos % nestable.len();
    let w = nestable[q];
    assert(w as int == admitted_positions(available@, pred)[q as int]);
    let wrapper = &available[w];
    proof {
        reveal_strlit("_on_");
        reveal_strlit("indicator");
    }
    let mut alias = wrapper.alias.clone();
    alias.append("_on_");
    alias.append(input.alias.as_str());
    proof {
        assert(alias@ == available@[w as int].alias@ + "_on_"@ + all[k as int].alias@);
        if assured {
            assert(first_nested(ns, available@[w as int].alias@ + "_on_"@ + all[k as int].alias@) is None);
        }
    }
    if find_nested(nested.as_slice(), &alias).is_some() {
        return false;
    }
    let n = NestedIndicator {
        indicator: IndicatorInfo {
            name: wrapper.name.clone(),
            alias,
            indicator_type: wrapper.indicator_type.clone(),
            can_use_indicator_input: true,
            input_type: owned("indicator"),
        },
        input_indicator_alias: input.alias.clone(),
        depth: depth + 1,
    };
    let ghost nv = n;
    nested.push(n);
    assert(wraps(nv, available@[w as int], all[k as int], input_depth(ns, all[k as int].alias@) + 1));
    assert(nested@ == ns.push(nv));
    assert(nested@.last() == nv);
    true
}

/// Draws the input and the wrapper of a nesting and nests as `nest_on_draws`
/// does.
fn nest_onto(
    indicators: &Vec<IndicatorInfo>,
    nested: &mut Vec<NestedIndicator>,
    available: &[IndicatorInfo],
    nestable: &Vec<usize>,
    max_depth: usize,
    Ghost(pred): Ghost<spec_fn(IndicatorInfo) -> bool>,
    rng: &mut ThreadRng,
) -> (r: bool)
    requires
        nestable@.len() == admitted_positions(available@, pred).len(),
        forall|k: int| 0 <= k < nestable@.len() ==> #[trigger] nestable@[k] as int == admitted_positions(available@, pred)[k],
    ensures
        r ==> nested_onto(indicators@, old(nested)@, pred, available@, max_depth as nat, final(nested)@),
        !r ==> final(nested)@ == old(nested)@,
        nesting_assured(indicators@, old(nested)@, pred, available@, max_depth as nat) ==> r,
{
    let base_len = bases_exec(indicators, nested).len();
    let input_pos = if base_len > 0 {
        random_below(rng, base_len)
    } else {
        0
    };
    let wrapper_pos = if nestable.len() > 0 {
        random_below(rng, nestable.len())
    } else {
        0
    };
    nest_on_draws(indicators, nested, available, nestable, max_depth, Ghost(pred), input_pos, wrapper_pos)
}

/// The indicators that may wrap another one while a candidate is built:
/// those whose rules accept an indicator as input, unless excluded.
pub open spec fn nestable_by_rules(registry: BuildRulesRegistry, excluded: Seq<String>) -> spec_fn(IndicatorInfo) -> bool {
    |x: IndicatorInfo|
        (match lookup_rules(registry, x.name@) {
            Some(rules) => rules.nesting.accepts_input,
            None => false,
        }) && !excluded_name(excluded, x.name@)
}

/// The positions of the available indicators whose rules accept an input
/// and that the rules do not exclude.
fn rules_nestable(available_indicators: &[IndicatorInfo], registry: &BuildRulesRegistry, config: &CandidateBuilderConfig) -> (r: Vec<
    usize,
>)
    ensures
        r@.len() == admitted_positions(available_indicators@, nestable_by_rules(*registry, config.rules.excluded_indicators@)).len(),
        forall|k: int|
            0 <= k < r@.len() ==> #[trigger] r@[k] as int == admitted_positions(
                available_indicators@,
                nestable_by_rules(*registry, config.rules.excluded_indicators@),
            )[k],
{
    let ghost pred = nestable_by_rules(*registry, config.rules.excluded_indicators@);
    let mut nestable: Vec<usize> = Vec::new();
    let mut j: usize = 0;
    while j < available_indicators.len()
        invariant
            j <= available_indicators@.len(),
            pred == nestable_by_rules(*registry, config.rules.excluded_indicators@),
            nestable@.len() == admitted_positions(available_indicators@.take(j as int), pred).len(),
            forall|k: int|
                0 <= k < nestable@.len() ==> #[trigger] nestable@[k] as int == admitted_positions(
                    available_indicators@.take(j as int),
                    pred,
                )[k],
        decreases available_indicators@.len() - j,
    {
        assert(available_indicators@.take(j + 1).drop_last() =~= available_indicators@.take(j as int));
        let x = &available_indicators[j];
        if can_accept_nested_input(registry, x.name.as_str()) && !is_excluded_name(&config.rules.excluded_indicators, &x.name) {
            nestable.push(j);
        }
        j = j + 1;
    }
    assert(available_indicators@.take(available_indicators@.len() as int) =~= available_indicators@);
    nestable
}

/// With the probability of adding a nested indicator, nests an available
/// indicator whose rules accept an input (and that the rules do not
/// exclude) on a random indicator of the candidate, as `nested_onto` says;
/// the rest of the candidate stays as it is.
pub fn try_add_nested_indicator(
    candidate: &mut CandidateElements,
    available_indicators: &[IndicatorInfo],
    registry: &BuildRulesRegistry,
    config: &CandidateBuilderConfig,
    rng: &mut ThreadRng,
)
    ensures
        final(candidate).nested_indicators@ == old(candidate).nested_indicators@ || nested_onto(
            old(candidate).indicators@,
            old(candidate).nested_indicators@,
            nestable_by_rules(*registry, config.rules.excluded_indicators@),
            available_indicators@,
            config.probabilities.nested_indicators.max_nesting_depth as nat,
            final(candidate).nested_indicators@,
        ),
        config.probabilities.nested_indicators.add_nested_indicator == 0 ==> final(candidate).nested_indicators@
            == old(candidate).nested_indicators@,
        certain(config.probabilities.nested_indicators.add_nested_indicator) && nesting_assured(
            old(candidate).indicators@,
            old(candidate).nested_indicators@,
            nestable_by_rules(*registry, config.rules.excluded_indicators@),
            available_indicators@,
            config.probabilities.nested_indicators.max_nesting_depth as nat,
        ) ==> nested_onto(
            old(candidate).indicators@,
            old(candidate).nested_indicators@,
            nestable_by_rules(*registry, config.rules.excluded_indicators@),
            available_indicators@,
            config.probabilities.nested_indicators.max_nesting_depth as nat,
            final(candidate).nested_indicators@,
        ),
        final(candidate).indicators@ == old(candidate).indicators@,
        final(candidate).entry_conditions@ == old(candidate).entry_conditions@,
        final(candidate).exit_conditions@ == old(candidate).exit_conditions@,
        final(candidate).stop_handlers@ == old(candidate).stop_handlers@,
        final(candidate).take_handlers@ == old(candidate).take_handlers@,
        final(candidate).timeframes@ == old(candidate).timeframes@,
{
    let probs = config.probabilities.nested_indicators;
    if !should_add(probs.add_nested_indicator, rng) {
        return;
    }
    let nestable = rules_nestable(available_indicators, registry, config);
    nest_onto(
        &candidate.indicators,
        &mut candidate.nested_indicators,
        available_indicators,
        &nestable,
        probs.max_nesting_depth,
        Ghost(nestable_by_rules(*registry, config.rules.excluded_indicators@)),
        rng,
    );
}

/// The nesting of `try_add_nested_indicator` for given draws, as
/// `nesting_on` says: the coin `add` and the positions `input_pos` and
/// `wrapper_pos`; the rest of the candidate stays as it is.
pub fn try_add_nested_indicator_with_draws(
    candidate: &mut CandidateElements,
    available_indicators: &[IndicatorInfo],
    registry: &BuildRulesRegistry,
    config: &CandidateBuilderConfig,
    add: bool,
    input_pos: usize,
    wrapper_pos: usize,
)
    ensures
        nesting_on(
            old(candidate).indicators@,
            old(candidate).nested_indicators@,
            nestable_by_rules(*registry, config.rules.excluded_indicators@),
            available_indicators@,
            config.probabilities.nested_indicators.max_nesting_depth as nat,
            add,
            input_pos as nat,
            wrapper_pos as nat,
            final(candidate).nested_indicators@,
        ),
        final(candidate).indicators@ == old(candidate).indicators@,
        final(candidate).entry_conditions@ == old(candidate).entry_conditions@,
        final(candidate).exit_conditions@ == old(candidate).exit_conditions@,
        final(candidate).stop_handlers@ == old(candidate).stop_handlers@,
        final(candidate).take_handlers@ == old(candidate).take_handlers@,
        final(candidate).timeframes@ == old(candidate).timeframes@,
{
    if !add {
        return;
    }
    let nestable = rules_nestable(available_indicators, registry, config);
    nest_on_draws(
        &candidate.indicators,
        &mut candidate.nested_indicators,
        available_indicators,
        &nestable,
        config.probabilities.nested_indicators.max_nesting_depth,
        Ghost(nestable_by_rules(*registry, config.rules.excluded_indicators@)),
        input_pos,
        wrapper_pos,
    );
}

fn is_excluded_name(excluded: &Vec<String>, name: &String) -> (r: bool)
    ensures
        r == excluded_name(excluded@, name@),
{
    let mut j: usize = 0;
    while j < excluded.len()
        invariant
            j <= excluded@.len(),
            forall|k: int| 0 <= k < j ==> (#[trigger] excluded@[k])@ != name@,
        decreases excluded@.len() - j,
    {
        if same_text(excluded[j].as_str(), name.as_str()) {
            return true;
        }
        j = j + 1;
    }
    false
}

/// The trend indicators that the rules do not exclude.
pub open spec fn nestable_trend(excluded: Seq<String>) -> spec_fn(IndicatorInfo) -> bool {
    |x: IndicatorInfo| x.indicator_type@ == trend_text() && !excluded_name(excluded, x.name@)
}

/// The builder of indicators; its steps take the configuration and the
/// random generator as arguments.
pub struct IndicatorBuilder;

impl IndicatorBuilder {
    /// With the probability of adding a nested indicator, nests an
    /// available trend indicator (that the rules do not exclude) on a random
    /// indicator, as `nested_onto` says; tells whether it did.
    pub fn try_add_nested_indicator(
        config: &CandidateBuilderConfig,
        rng: &mut ThreadRng,
        indicators: &Vec<IndicatorInfo>,
        nested_indicators: &mut Vec<NestedIndicator>,
        available_indicators: &[IndicatorInfo],
    ) -> (r: bool)
        ensures
            r ==> nested_onto(
                indicators@,
                old(nested_indicators)@,
                nestable_trend(config.rules.excluded_indicators@),
                available_indicators@,
                config.probabilities.nested_indicators.max_nesting_depth as nat,
                final(nested_indicators)@,
            ),
            !r ==> final(nested_indicators)@ == old(nested_indicators)@,
            config.probabilities.nested_indicators.add_nested_indicator == 0 ==> !r,
            certain(config.probabilities.nested_indicators.add_nested_indicator) && nesting_assured(
                indicators@,
                old(nested_indicators)@,
                nestable_trend(config.rules.excluded_indicators@),
                available_indicators@,
                config.probabilities.nested_indicators.max_nesting_depth as nat,
            ) ==> r,
    {
        let probs = config.probabilities.nested_indicators;
        if !should_add(probs.add_nested_indicator, rng) {
            return false;
        }
        let nestable = trend_nestable(available_indicators, config);
        nest_onto(
            indicators,
            nested_indicators,
            available_indicators,
            &nestable,
            probs.max_nesting_depth,
            Ghost(nestable_trend(config.rules.excluded_indicators@)),
            rng,
        )
    }

    /// The nesting of `try_add_nested_indicator` for given draws, as
    /// `nesting_on` says: the coin `add` and the positions `input_pos` and
    /// `wrapper_pos`; tells whether it nested.
    pub fn try_add_nested_indicator_with_draws(
        config: &CandidateBuilderConfig,
        indicators: &Vec<IndicatorInfo>,
        nested_indicators: &mut Vec<NestedIndicator>,
        available_indicators: &[IndicatorInfo],
        add: bool,
        input_pos: usize,
        wrapper_pos: usize,
    ) -> (r: bool)
        ensures
            nesting_on(
                indicators@,
                old(nested_indicators)@,
                nestable_trend(config.rules.excluded_indicators@),
                available_indicators@,
                config.probabilities.nested_indicators.max_nesting_depth as nat,
                add,
                input_pos as nat,
                wrapper_pos as nat,
                final(nested_indicators)@,
            ),
            r <==> final(nested_indicators)@ != old(nested_indicators)@,
    {
        if !add {
            return false;
        }
        let nestable = trend_nestable(available_indicators, config);
        let r = nest_on_draws(
            indicators,
            nested_indicators,
            available_indicators,
            &nestable,
            config.probabilities.nested_indicators.max_nesting_depth,
            Ghost(nestable_trend(config.rules.excluded_indicators@)),
            input_pos,
            wrapper_pos,
        );
        proof {
            if r {
                assert(nested_indicators@.len() != old(nested_indicators)@.len());
            }
        }
        r
    }
}

/// The positions of the available trend indicators that the rules do not
/// exclude.
fn trend_nestable(available_indicators: &[IndicatorInfo], config: &CandidateBuilderConfig) -> (r: Vec<usize>)
    ensures
        r@.len() == admitted_positions(available_indicators@, nestable_trend(config.rules.excluded_indicators@)).len(),
        forall|k: int|
            0 <= k < r@.len() ==> #[trigger] r@[k] as int == admitted_positions(
                available_indicators@,
                nestable_trend(config.rules.excluded_indicators@),
            )[k],
{
    let ghost pred = nestable_trend(config.rules.excluded_indicators@);
    let tr: Vec<char> = vec!['t', 'r', 'e', 'n', 'd'];
    assert(tr@ =~= trend_text());
    let mut nestable: Vec<usize> = Vec::new();
    let mut j: usize = 0;
    while j < available_indicators.len()
        invariant
            j <= available_indicators@.len(),
            tr@ == trend_text(),
            pred == nestable_trend(config.rules.excluded_indicators@),
            nestable@.len() == admitted_positions(available_indicators@.take(j as int), pred).len(),
            forall|k: int|
                0 <= k < nestable@.len() ==> #[trigger] nestable@[k] as int == admitted_positions(
                    available_indicators@.take(j as int),
                    pred,
                )[k],
        decreases available_indicators@.len() - j,
    {
        assert(available_indicators@.take(j + 1).drop_last() =~= available_indicators@.take(j as int));
        let x = &available_indicators[j];
        if text_is(x.indicator_type.as_str(), &tr) && !is_excluded_name(&config.rules.excluded_indicators, &x.name) {
            nestable.push(j);
        }
        j = j + 1;
    }
    assert(available_indicators@.take(available_indicators@.len() as int) =~= available_indicators@);
    nestable
}


/// One timeframe of `avail` from position `from` on that `t` lacks added,
/// where `t` holds fewer than `max`.
pub open spec fn added_from(t: Seq<TimeFrame>, avail: Seq<TimeFrame>, from: int, max: nat, r: Seq<TimeFrame>) -> bool {
    exists|k: int| from <= k < avail.len() && t.len() < max && !t.contains(#[trigger] avail[k]) && r == t.push(avail[k])
}

/// The outcomes of adding higher timeframes: nothing when at most one
/// timeframe is available; otherwise maybe a timeframe above the base one
/// (the first available) that is missing, while below `max`; then, when
/// more than two are available and at least two are held, maybe any
/// missing one, while below `max`.
pub open spec fn higher_timeframes_added(t: Seq<TimeFrame>, avail: Seq<TimeFrame>, max: nat, r: Seq<TimeFrame>) -> bool {
    if avail.len() <= 1 {
        r == t
    } else {
        exists|mid: Seq<TimeFrame>|
            #[trigger] higher_step(t, avail, max, mid) && (r == mid || (avail.len() > 2 && mid.len() >= 2
                && added_from(mid, avail, 0, max, r)))
    }
}

/// The first step of adding higher timeframes: nothing, or a missing
/// timeframe above the base one.
pub open spec fn higher_step(t: Seq<TimeFrame>, avail: Seq<TimeFrame>, max: nat, mid: Seq<TimeFrame>) -> bool {
    mid == t || added_from(t, avail, 1, max, mid)
}

/// The timeframes of `avail` from position `from` on that `t` lacks, in
/// order.
pub open spec fn missing_list(t: Seq<TimeFrame>, avail: Seq<TimeFrame>, from: int) -> Seq<TimeFrame>
    decreases avail.len(),
{
    if avail.len() <= from || avail.len() == 0 {
        Seq::empty()
    } else {
        let p = missing_list(t, avail.drop_last(), from);
        if !t.contains(avail.last()) {
            p.push(avail.last())
        } else {
            p
        }
    }
}

/// One step of adding a timeframe for given draws: with the coin, while
/// `t` holds fewer than `max`, the timeframe at `pick` (modulo their count)
/// among those of `avail` from `from` on that `t` lacks is added, if any.
pub open spec fn add_step(t: Seq<TimeFrame>, avail: Seq<TimeFrame>, from: int, max: nat, coin: bool, pick: nat) -> Seq<
    TimeFrame,
> {
    let m = missing_list(t, avail, from);
    if coin && t.len() < max && m.len() > 0 {
        t.push(m[(pick % m.len()) as int])
    } else {
        t
    }
}

/// Adding higher timeframes for given draws: nothing when at most one
/// timeframe is available; otherwise a step from position 1 on with the
/// coin `higher` and `higher_pick`, then, when more than two are available
/// and at least two are held, a step from position 0 on with the coin
/// `multiple` and `multiple_pick`.
pub open spec fn higher_timeframes_on(
    t: Seq<TimeFrame>,
    avail: Seq<TimeFrame>,
    max: nat,
    higher: bool,
    multiple: bool,
    higher_pick: nat,
    multiple_pick: nat,
) -> Seq<TimeFrame> {
    if avail.len() <= 1 {
        t
    } else {
        let mid = add_step(t, avail, 1, max, higher, higher_pick);
        if avail.len() > 2 && mid.len() >= 2 {
            add_step(mid, avail, 0, max, multiple, multiple_pick)
        } else {
            mid
        }
    }
}

proof fn lemma_missing_list(t: Seq<TimeFrame>, avail: Seq<TimeFrame>, from: int)
    requires
        0 <= from,
    ensures
        forall|q: int|
            0 <= q < missing_list(t, avail, from).len() ==> exists|k: int|
                from <= k < avail.len() && !t.contains(#[trigger] avail[k]) && avail[k] == #[trigger] missing_list(
                    t,
                    avail,
                    from,
                )[q],
        (exists|k: int| from <= k < avail.len() && !t.contains(#[trigger] avail[k])) ==> missing_list(t, avail, from).len()
            > 0,
    decreases avail.len(),
{
    if avail.len() > from && avail.len() > 0 {
        let a = avail.drop_last();
        lemma_missing_list(t, a, from);
        let m = missing_list(t, avail, from);
        let p = missing_list(t, a, from);
        assert forall|q: int| 0 <= q < m.len() implies exists|k: int|
            from <= k < avail.len() && !t.contains(#[trigger] avail[k]) && avail[k] == #[trigger] m[q] by {
            if q < p.len() {
                assert(m[q] == p[q]);
                let k = choose|k: int| from <= k < a.len() && !t.contains(#[trigger] a[k]) && a[k] == p[q];
                assert(avail[k] == a[k]);
            } else {
                assert(avail[avail.len() - 1] == avail.last());
            }
        }
        if exists|k: int| from <= k < avail.len() && !t.contains(#[trigger] avail[k]) {
            let k = choose|k: int| from <= k < avail.len() && !t.contains(#[trigger] avail[k]);
            if k < avail.len() - 1 {
                assert(avail[k] == a[k]);
            }
        }
    }
}

/// Takes the step `add_step` for the coin and the pick; tells whether a
/// timeframe was added.
fn add_missing_at(
    timeframes: &mut Vec<TimeFrame>,
    available: &[TimeFrame],
    from: usize,
    max: usize,
    coin: bool,
    pick: usize,
) -> (r: bool)
    requires
        from <= available@.len(),
    ensures
        final(timeframes)@ == add_step(old(timeframes)@, available@, from as int, max as nat, coin, pick as nat),
        r <==> final(timeframes)@ != old(timeframes)@,
        r ==> exists|k: int|
            from <= k < available@.len() && !old(timeframes)@.contains(#[trigger] available@[k]) && final(timeframes)@
                == old(timeframes)@.push(available@[k]),
        coin && old(timeframes)@.len() < max && (exists|k: int|
            from <= k < available@.len() && !old(timeframes)@.contains(#[trigger] available@[k])) ==> r,
{
    let ghost t = timeframes@;
    proof {
        lemma_missing_list(t, available@, from as int);
    }
    if !coin || timeframes.len() >= max {
        return false;
    }
    let missing = missing_timeframes(timeframes, available, from);
    if missing.len() == 0 {
        return false;
    }
    let tf = missing[pick % missing.len()];
    assert(tf == missing_list(t, available@, from as int)[(pick % missing.len()) as int]);
    timeframes.push(tf);
    assert(timeframes@.len() != t.len());
    true
}

/// The timeframes of `available` from position `from` on that
/// `timeframes` lacks, in order.
fn missing_timeframes(timeframes: &Vec<TimeFrame>, available: &[TimeFrame], from: usize) -> (r: Vec<TimeFrame>)
    requires
        from <= available@.len(),
    ensures
        r@ == missing_list(timeframes@, available@, from as int),
{
    let mut missing: Vec<TimeFrame> = Vec::new();
    let mut i: usize = from;
    assert(missing_list(timeframes@, available@.take(from as int), from as int) =~= Seq::empty());
    while i < available.len()
        invariant
            from <= i <= available@.len(),
            missing@ == missing_list(timeframes@, available@.take(i as int), from as int),
        decreases available@.len() - i,
    {
        assert(available@.take(i + 1).drop_last() =~= available@.take(i as int));
        let tf = available[i];
        let mut present = false;
        let mut j: usize = 0;
        while j < timeframes.len()
            invariant
                j <= timeframes@.len(),
                present <==> exists|q: int| 0 <= q < j && timeframes@[q] == tf,
            decreases timeframes@.len() - j,
        {
            if timeframes[j] == tf {
                present = true;
            }
            j = j + 1;
        }
        assert(present == timeframes@.contains(tf));
        if !present {
            missing.push(tf);
        }
        i = i + 1;
    }
    assert(available@.take(available@.len() as int) =~= available@);
    missing
}

/// The builder of timeframes; its steps take the random generator as an
/// argument.
pub struct TimeframeBuilder;

impl TimeframeBuilder {
    /// Adds higher timeframes at random, as `higher_timeframes_added` says:
    /// with the probability of a higher timeframe, a missing one above the
    /// base, and then, with the probability of several timeframes, any
    /// missing one, each only while fewer than the maximum are held.
    pub fn add_higher_timeframes_with_probability(
        rng: &mut ThreadRng,
        timeframes: &mut Vec<TimeFrame>,
        available_timeframes: &[TimeFrame],
        constraints: &ElementConstraints,
        timeframe_probs: &TimeframeProbabilities,
    )
        ensures
            higher_timeframes_added(
                old(timeframes)@,
                available_timeframes@,
                constraints.max_timeframes as nat,
                final(timeframes)@,
            ),
            timeframe_probs.use_higher_timeframe == 0 && timeframe_probs.use_multiple_timeframes == 0
                ==> final(timeframes)@ == old(timeframes)@,
            certain(timeframe_probs.use_higher_timeframe) && old(timeframes)@.len() < constraints.max_timeframes
                && (exists|k: int|
                1 <= k < available_timeframes@.len() && !old(timeframes)@.contains(#[trigger] available_timeframes@[k]))
                ==> final(timeframes)@.len() > old(timeframes)@.len() && (exists|k: int|
                1 <= k < available_timeframes@.len() && !old(timeframes)@.contains(#[trigger] available_timeframes@[k])
                    && final(timeframes)@[old(timeframes)@.len() as int] == available_timeframes@[k]),
            certain(timeframe_probs.use_multiple_timeframes) && available_timeframes@.len() > 2
                && old(timeframes)@.len() >= 2 && old(timeframes)@.len() < constraints.max_timeframes
                && (exists|k: int|
                0 <= k < available_timeframes@.len() && !old(timeframes)@.contains(#[trigger] available_timeframes@[k]))
                ==> final(timeframes)@.len() > old(timeframes)@.len(),
    {
        let ghost t = timeframes@;
        let ghost max = constraints.max_timeframes as nat;
        if available_timeframes.len() <= 1 {
            return;
        }
        let higher = timeframes.len() < constraints.max_timeframes && should_add(timeframe_probs.use_higher_timeframe, rng);
        let count = missing_timeframes(timeframes, available_timeframes, 1).len();
        let higher_pick = if higher && count > 0 {
            random_below(rng, count)
        } else {
            0
        };
        add_missing_at(timeframes, available_timeframes, 1, constraints.max_timeframes, higher, higher_pick);
        let ghost mid = timeframes@;
        assert(mid == t || added_from(t, available_timeframes@, 1, max, mid));
        assert(mid.len() > t.len() ==> mid.len() == t.len() + 1 && (exists|k: int|
            1 <= k < available_timeframes@.len() && !t.contains(#[trigger] available_timeframes@[k])
                && mid[t.len() as int] == available_timeframes@[k]));
        let multiple = available_timeframes.len() > 2 && timeframes.len() >= 2 && timeframes.len()
            < constraints.max_timeframes && should_add(timeframe_probs.use_multiple_timeframes, rng);
        let count = missing_timeframes(timeframes, available_timeframes, 0).len();
        let multiple_pick = if multiple && count > 0 {
            random_below(rng, count)
        } else {
            0
        };
        if available_timeframes.len() > 2 && timeframes.len() >= 2 {
            add_missing_at(timeframes, available_timeframes, 0, constraints.max_timeframes, multiple, multiple_pick);
        }
        assert(timeframes@ == mid || (available_timeframes@.len() > 2 && mid.len() >= 2 && added_from(
            mid,
            available_timeframes@,
            0,
            max,
            timeframes@,
        )));
        proof {
            lemma_higher_witness(t, available_timeframes@, max, mid, timeframes@);
        }
    }

    /// Adds higher timeframes for given draws, as `higher_timeframes_on`
    /// says: the coins `higher` and `multiple` and the picks
    /// `higher_pick` and `multiple_pick`.
    pub fn add_higher_timeframes_with_draws(
        timeframes: &mut Vec<TimeFrame>,
        available_timeframes: &[TimeFrame],
        constraints: &ElementConstraints,
        higher: bool,
        multiple: bool,
        higher_pick: usize,
        multiple_pick: usize,
    )
        ensures
            final(timeframes)@ == higher_timeframes_on(
                old(timeframes)@,
                available_timeframes@,
                constraints.max_timeframes as nat,
                higher,
                multiple,
                higher_pick as nat,
                multiple_pick as nat,
            ),
    {
        if available_timeframes.len() <= 1 {
            return;
        }
        add_missing_at(timeframes, available_timeframes, 1, constraints.max_timeframes, higher, higher_pick);
        if available_timeframes.len() > 2 && timeframes.len() >= 2 {
            add_missing_at(timeframes, available_timeframes, 0, constraints.max_timeframes, multiple, multiple_pick);
        }
    }
}

proof fn lemma_higher_witness(t: Seq<TimeFrame>, avail: Seq<TimeFrame>, max: nat, mid: Seq<TimeFrame>, r: Seq<TimeFrame>)
    requires
        avail.len() > 1,
        mid == t || added_from(t, avail, 1, max, mid),
        r == mid || (avail.len() > 2 && mid.len() >= 2 && added_from(mid, avail, 0, max, r)),
    ensures
        higher_timeframes_added(t, avail, max, r),
{
    assert(higher_step(t, avail, max, mid));
}

/// Adding higher timeframes never goes above the maximum (from at most the
/// maximum) and never adds a timeframe twice.
pub proof fn law_higher_timeframes_bounded(t: Seq<TimeFrame>, avail: Seq<TimeFrame>, max: nat, r: Seq<TimeFrame>)
    requires
        higher_timeframes_added(t, avail, max, r),
    ensures
        t.len() <= max ==> r.len() <= max,
        t.no_duplicates() ==> r.no_duplicates(),
{
    if avail.len() > 1 {
        let mid = choose|mid: Seq<TimeFrame>|
            #[trigger] higher_step(t, avail, max, mid) && (r == mid || (avail.len() > 2 && mid.len() >= 2
                && added_from(mid, avail, 0, max, r)));
        lemma_added_keeps(t, avail, 1, max, mid);
        lemma_added_keeps(mid, avail, 0, max, r);
    }
}

proof fn lemma_added_keeps(t: Seq<TimeFrame>, avail: Seq<TimeFrame>, from: int, max: nat, r: Seq<TimeFrame>)
    ensures
        added_from(t, avail, from, max, r) ==> r.len() <= max,
        added_from(t, avail, from, max, r) ==> (t.no_duplicates() ==> r.no_duplicates()),
{
    if added_from(t, avail, from, max, r) {
        let k = choose|k: int|
            from <= k < avail.len() && t.len() < max && !t.contains(#[trigger] avail[k]) && r == t.push(avail[k]);
        if t.no_duplicates() {
            assert forall|i: int, j: int| 0 <= i < r.len() && 0 <= j < r.len() && i != j implies r[i] != r[j] by {
                if i == t.len() as int {
                    assert(r[j] == t[j]);
                } else if j == t.len() as int {
                    assert(r[i] == t[i]);
                } else {
                    assert(r[i] == t[i] && r[j] == t[j]);
                }
            }
        }
    }
}

/// A nesting keeps every nested indicator within the maximum depth, and
/// the aliases of the nested indicators apart.
pub proof fn law_nesting_within_depth(
    indicators: Seq<IndicatorInfo>,
    ns: Seq<NestedIndicator>,
    nestable: spec_fn(IndicatorInfo) -> bool,
    available: Seq<IndicatorInfo>,
    max_depth: nat,
    r: Seq<NestedIndicator>,
)
    requires
        nested_onto(indicators, ns, nestable, available, max_depth, r),
        forall|k: int| 0 <= k < ns.len() ==> (#[trigger] ns[k]).depth <= max_depth,
        forall|a: int, b: int|
            0 <= a < b < ns.len() ==> (#[trigger] ns[a]).indicator.alias@ != (#[trigger] ns[b]).indicator.alias@,
    ensures
        forall|k: int| 0 <= k < r.len() ==> (#[trigger] r[k]).depth <= max_depth,
        forall|a: int, b: int|
            0 <= a < b < r.len() ==> (#[trigger] r[a]).indicator.alias@ != (#[trigger] r[b]).indicator.alias@,
{
    let (i, w, n) = choose|i: int, w: int, n: NestedIndicator|
        #![trigger bases(indicators, ns)[i], available[w], ns.push(n)]
        {
            let input = bases(indicators, ns)[i];
            &&& indicators.len() > 0
            &&& max_depth_of(ns) < max_depth
            &&& 0 <= i < bases(indicators, ns).len()
            &&& 0 <= w < available.len()
            &&& nestable(available[w])
            &&& input_depth(ns, input.alias@) < max_depth
            &&& wraps(n, available[w], input, input_depth(ns, input.alias@) + 1)
            &&& first_nested(ns, n.indicator.alias@) is None
            &&& r == ns.push(n)
        };
    lemma_first_nested_none(ns, n.indicator.alias@);
    assert forall|k: int| 0 <= k < r.len() implies (#[trigger] r[k]).depth <= max_depth by {
        if k < ns.len() {
            assert(r[k] == ns[k]);
        }
    }
    assert forall|a: int, b: int| 0 <= a < b < r.len() implies (#[trigger] r[a]).indicator.alias@ != (#[trigger] r[
        b
    ]).indicator.alias@ by {
        assert(r[a] == ns[a]);
        if b < ns.len() {
            assert(r[b] == ns[b]);
        }
    }
}

proof fn lemma_first_nested_none(ns: Seq<NestedIndicator>, alias: Seq<char>)
    ensures
        first_nested(ns, alias) is None ==> forall|k: int| 0 <= k < ns.len() ==> (#[trigger] ns[k]).indicator.alias@ != alias,
    decreases ns.len(),
{
    if ns.len() > 0 {
        lemma_first_nested_none(ns.drop_last(), alias);
        if first_nested(ns, alias) is None {
            assert forall|k: int| 0 <= k < ns.len() implies (#[trigger] ns[k]).indicator.alias@ != alias by {
                if k < ns.len() - 1 {
                    assert(ns.drop_last()[k] == ns[k]);
                }
            }
        }
    }
}


/// The indicator's rules give it the threshold type `t`; an unknown
/// indicator has none.
pub open spec fn threshold_is(reg: BuildRulesRegistry, name: Seq<char>, t: ThresholdType) -> bool {
    match lookup_rules(reg, name) {
        Some(rules) => rules.threshold_type == t,
        None => false,
    }
}

/// The operators that an indicator admits: those of its rules, or above and
/// below for an unknown one.
pub open spec fn admitted_ops(reg: BuildRulesRegistry, name: Seq<char>) -> Seq<ConditionOperator> {
    match lookup_rules(reg, name) {
        Some(rules) => rules.allowed_conditions@,
        None => seq![ConditionOperator::Above, ConditionOperator::Below],
    }
}

/// The operator is a rising or a falling trend.
pub open spec fn is_trend_op(op: ConditionOperator) -> bool {
    op == ConditionOperator::RisingTrend || op == ConditionOperator::FallingTrend
}

/// Some other indicator of the candidate may be compared with `primary`.
pub open spec fn has_comparable(
    reg: BuildRulesRegistry,
    primary: IndicatorInfo,
    all: Seq<IndicatorInfo>,
    ns: Seq<NestedIndicator>,
    plain: Seq<IndicatorInfo>,
) -> bool {
    exists|j: int| 0 <= j < all.len() && (#[trigger] all[j]).alias@ != primary.alias@ && compare_allowed(reg, primary, all[j], ns, plain)
}

/// The kinds of condition that may be built on `primary`: a constant one for
/// an indicator with an absolute threshold that no nested indicator takes
/// as input, or with a threshold in percent of the price; for an indicator
/// built on one with an absolute threshold, the weighted choice for
/// oscillator-based indicators; else the weighted choice of a kind, where an
/// indicator-indicator kind without a comparable indicator gives way to a
/// trend or a price condition (one of weight zero never chosen).
pub open spec fn shape_kind_allowed(
    reg: BuildRulesRegistry,
    primary: IndicatorInfo,
    indicators: Seq<IndicatorInfo>,
    ns: Seq<NestedIndicator>,
    p: ConditionProbabilities,
    kind: ConditionKind,
) -> bool {
    let all = bases(indicators, ns);
    if threshold_is(reg, primary.name@, ThresholdType::Absolute) && !used_as_input(primary, ns) {
        kind == ConditionKind::IndicatorConstant
    } else if threshold_is(reg, primary.name@, ThresholdType::PercentOfPrice) {
        kind == ConditionKind::IndicatorConstant
    } else if input_of(ns, all, primary.alias@) matches Some(x) && threshold_is(reg, x.name@, ThresholdType::Absolute) {
        weighted_oscillator_kind_allowed(p, kind)
    } else if has_comparable(reg, primary, all, ns, indicators) {
        weighted_kind_allowed(p, kind)
    } else {
        ||| weighted_kind_allowed(p, kind) && kind != ConditionKind::IndicatorIndicator
        ||| p.use_indicator_indicator_condition > 0 && ((kind == ConditionKind::TrendCondition
            && p.use_trend_condition > 0) || (kind == ConditionKind::IndicatorPrice && p.use_indicator_price_condition
            > 0))
    }
}

/// The weighted choice of a kind is reached for `primary`: no threshold of
/// its own decides the kind, and it is not built on an indicator with an
/// absolute threshold.
pub open spec fn weighted_branch(
    reg: BuildRulesRegistry,
    primary: IndicatorInfo,
    indicators: Seq<IndicatorInfo>,
    ns: Seq<NestedIndicator>,
) -> bool {
    &&& !(threshold_is(reg, primary.name@, ThresholdType::Absolute) && !used_as_input(primary, ns))
    &&& !threshold_is(reg, primary.name@, ThresholdType::PercentOfPrice)
    &&& !(input_of(ns, bases(indicators, ns), primary.alias@) matches Some(x) && threshold_is(
        reg,
        x.name@,
        ThresholdType::Absolute,
    ))
}

/// An indicator-indicator kind drawn without a comparable indicator can
/// always give way to a trend or price kind: its weight is zero, the trend
/// and price weights are not both zero, or every indicator whose kind is
/// drawn by weight has a comparable one.
pub open spec fn fallback_defined(
    reg: BuildRulesRegistry,
    indicators: Seq<IndicatorInfo>,
    ns: Seq<NestedIndicator>,
    p: ConditionProbabilities,
) -> bool {
    let all = bases(indicators, ns);
    ||| p.use_indicator_indicator_condition == 0
    ||| p.use_indicator_price_condition + p.use_trend_condition > 0
    ||| forall|i: int|
        0 <= i < all.len() && weighted_branch(reg, #[trigger] all[i], indicators, ns) ==> has_comparable(
            reg,
            all[i],
            all,
            ns,
            indicators,
        )
}

/// The operators that may be chosen for a kind of condition: an admitted
/// trend operator for a trend condition (a rising or falling trend when
/// none is admitted), else an admitted operator that is not a trend one
/// (above or below when there is none).
pub open spec fn shape_op_allowed(reg: BuildRulesRegistry, name: Seq<char>, kind: ConditionKind, op: ConditionOperator) -> bool {
    let allowed = admitted_ops(reg, name);
    if kind == ConditionKind::TrendCondition {
        if exists|i: int| 0 <= i < allowed.len() && is_trend_op(#[trigger] allowed[i]) {
            allowed.contains(op) && is_trend_op(op)
        } else {
            is_trend_op(op)
        }
    } else {
        if exists|i: int| 0 <= i < allowed.len() && !is_trend_op(#[trigger] allowed[i]) {
            allowed.contains(op) && !is_trend_op(op)
        } else {
            op == ConditionOperator::Above || op == ConditionOperator::Below
        }
    }
}

pub(crate) fn all_indicators(indicators: &Vec<IndicatorInfo>, nested: &Vec<NestedIndicator>) -> (r: Vec<IndicatorInfo>)
    ensures
        r@ == bases(indicators@, nested@),
{
    let mut r: Vec<IndicatorInfo> = Vec::new();
    let mut i: usize = 0;
    while i < indicators.len()
        invariant
            i <= indicators@.len(),
            r@ == indicators@.take(i as int),
        decreases indicators@.len() - i,
    {
        r.push(indicators[i].clone());
        i = i + 1;
        assert(r@ =~= indicators@.take(i as int));
    }
    let ghost all = bases(indicators@, nested@);
    let mut j: usize = 0;
    while j < nested.len()
        invariant
            j <= nested@.len(),
            indicators@.len() + nested@.len() == all.len(),
            all == bases(indicators@, nested@),
            r@ == all.take(indicators@.len() + j),
        decreases nested@.len() - j,
    {
        r.push(nested[j].indicator.clone());
        j = j + 1;
        assert(r@ =~= all.take(indicators@.len() + j));
    }
    assert(all.take(all.len() as int) =~= all);
    r
}

fn pick_operator(registry: &BuildRulesRegistry, name: &str, trend: bool, rng: &mut ThreadRng) -> (r: ConditionOperator)
    ensures
        shape_op_allowed(
            *registry,
            name@,
            if trend {
                ConditionKind::TrendCondition
            } else {
                ConditionKind::IndicatorPrice
            },
            r,
        ),
{
    let allowed = get_allowed_conditions(registry, name);
    let mut fitting: Vec<usize> = Vec::new();
    let mut i: usize = 0;
    while i < allowed.len()
        invariant
            i <= allowed@.len(),
            forall|k: int| 0 <= k < fitting@.len() ==> #[trigger] fitting@[k] < allowed@.len() && is_trend_op(
                allowed@[fitting@[k] as int],
            ) == trend,
            fitting@.len() == 0 ==> forall|k: int| 0 <= k < i ==> is_trend_op(#[trigger] allowed@[k]) != trend,
        decreases allowed@.len() - i,
    {
        let op = allowed[i];
        let is_trend = op == ConditionOperator::RisingTrend || op == ConditionOperator::FallingTrend;
        if is_trend == trend {
            fitting.push(i);
        }
        i = i + 1;
    }
    assert(allowed@ == admitted_ops(*registry, name@));
    if fitting.len() > 0 {
        let k = fitting[random_below(rng, fitting.len())];
        assert(allowed@.contains(allowed@[k as int]));
        assert(is_trend_op(allowed@[k as int]) == trend);
        allowed[k]
    } else if trend {
        if random_ratio(rng, 1, 2) {
            ConditionOperator::RisingTrend
        } else {
            ConditionOperator::FallingTrend
        }
    } else {
        if random_ratio(rng, 1, 2) {
            ConditionOperator::Above
        } else {
            ConditionOperator::Below
        }
    }
}

/// Settles what a new condition will be, as the building of a condition
/// does first: a random indicator of the candidate (plain or nested) as the
/// primary one, the kind of condition as `shape_kind_allowed` says and the
/// operator as `shape_op_allowed` says; nothing when the candidate has no
/// indicator.
pub fn choose_condition_shape(
    indicators: &Vec<IndicatorInfo>,
    nested_indicators: &Vec<NestedIndicator>,
    probabilities: &ConditionProbabilities,
    registry: &BuildRulesRegistry,
    rng: &mut ThreadRng,
) -> (r: Option<(IndicatorInfo, ConditionKind, ConditionOperator)>)
    requires
        fallback_defined(*registry, indicators@, nested_indicators@, *probabilities),
    ensures
        r is None <==> indicators@.len() + nested_indicators@.len() == 0,
        r matches Some((primary, kind, op)) ==> {
            &&& bases(indicators@, nested_indicators@).contains(primary)
            &&& shape_kind_allowed(*registry, primary, indicators@, nested_indicators@, *probabilities, kind)
            &&& shape_op_allowed(*registry, primary.name@, kind, op)
        },
{
    let all = all_indicators(indicators, nested_indicators);
    if all.len() == 0 {
        return None;
    }
    let k = random_below(rng, all.len());
    let primary = all[k].clone();
    assert(all@.contains(all@[k as int]));
    let used = is_oscillator_used_in_nested(&primary, nested_indicators.as_slice());
    let on_oscillator = match input_of_exec(nested_indicators.as_slice(), all.as_slice(), &primary.alias) {
        Some(x) => has_absolute_threshold(registry, x.name.as_str()),
        None => false,
    };
    let mut comparable = false;
    let mut j: usize = 0;
    while j < all.len()
        invariant
            j <= all@.len(),
            comparable <==> exists|q: int|
                0 <= q < j && (#[trigger] all@[q]).alias@ != primary.alias@ && compare_allowed(
                    *registry,
                    primary,
                    all@[q],
                    nested_indicators@,
                    indicators@,
                ),
        decreases all@.len() - j,
    {
        let other = &all[j];
        if !crate::text::same_text(other.alias.as_str(), primary.alias.as_str()) && can_compare_indicators(
            registry,
            &primary,
            other,
            nested_indicators.as_slice(),
            indicators.as_slice(),
        ) {
            comparable = true;
        }
        j = j + 1;
    }
    let kind = if has_absolute_threshold(registry, primary.name.as_str()) && !used {
        ConditionKind::IndicatorConstant
    } else if has_percent_of_price_threshold(registry, primary.name.as_str()) {
        ConditionKind::IndicatorConstant
    } else if on_oscillator {
        weighted_choice_for_oscillator_based(probabilities, rng)
    } else {
        let chosen = weighted_condition_type_choice(probabilities, rng);
        if chosen == ConditionKind::IndicatorIndicator && !comparable {
            let w_price = probabilities.use_indicator_price_condition as u64;
            let w_trend = probabilities.use_trend_condition as u64;
            if random_below_u64(rng, w_price + w_trend) < w_trend {
                ConditionKind::TrendCondition
            } else {
                ConditionKind::IndicatorPrice
            }
        } else {
            chosen
        }
    };
    let op = pick_operator(registry, primary.name.as_str(), kind == ConditionKind::TrendCondition, rng);
    proof {
        if kind != ConditionKind::TrendCondition {
            assert(shape_op_allowed(*registry, primary.name@, kind, op) == shape_op_allowed(
                *registry,
                primary.name@,
                ConditionKind::IndicatorPrice,
                op,
            ));
        }
    }
    Some((primary, kind, op))
}


/// The kind drawn by the weighted choice for the draw `d`: price,
/// indicator-indicator and trend kinds by their weights, the price kind
/// when all weights are zero.
pub open spec fn kind_at(p: ConditionProbabilities, d: u64) -> ConditionKind {
    let wp = p.use_indicator_price_condition as nat;
    let wi = p.use_indicator_indicator_condition as nat;
    let wt = p.use_trend_condition as nat;
    if wp + wi + wt == 0 {
        ConditionKind::IndicatorPrice
    } else if (d as nat) % (wp + wi + wt) < wp {
        ConditionKind::IndicatorPrice
    } else if (d as nat) % (wp + wi + wt) < wp + wi {
        ConditionKind::IndicatorIndicator
    } else {
        ConditionKind::TrendCondition
    }
}

/// The kind drawn for an indicator built on an oscillator: the
/// indicator-indicator and trend kinds by their weights, the first when both
/// are zero.
pub open spec fn oscillator_kind_at(p: ConditionProbabilities, d: u64) -> ConditionKind {
    let wi = p.use_indicator_indicator_condition as nat;
    let wt = p.use_trend_condition as nat;
    if wi + wt == 0 {
        ConditionKind::IndicatorIndicator
    } else if (d as nat) % (wi + wt) < wi {
        ConditionKind::IndicatorIndicator
    } else {
        ConditionKind::TrendCondition
    }
}

/// The kind that an indicator-indicator choice without a comparable
/// indicator gives way to: trend or price by their weights.
pub open spec fn fallback_kind_at(p: ConditionProbabilities, d: u64) -> ConditionKind {
    let wp = p.use_indicator_price_condition as nat;
    let wt = p.use_trend_condition as nat;
    if wp + wt > 0 && (d as nat) % (wp + wt) < wt {
        ConditionKind::TrendCondition
    } else {
        ConditionKind::IndicatorPrice
    }
}

/// The kind of condition built on `primary` for the draws, as
/// `shape_kind_allowed` describes the choices.
pub open spec fn shape_kind_on(
    reg: BuildRulesRegistry,
    primary: IndicatorInfo,
    indicators: Seq<IndicatorInfo>,
    ns: Seq<NestedIndicator>,
    p: ConditionProbabilities,
    kind_draw: u64,
    fallback_draw: u64,
) -> ConditionKind {
    let all = bases(indicators, ns);
    if threshold_is(reg, primary.name@, ThresholdType::Absolute) && !used_as_input(primary, ns) {
        ConditionKind::IndicatorConstant
    } else if threshold_is(reg, primary.name@, ThresholdType::PercentOfPrice) {
        ConditionKind::IndicatorConstant
    } else if input_of(ns, all, primary.alias@) matches Some(x) && threshold_is(reg, x.name@, ThresholdType::Absolute) {
        oscillator_kind_at(p, kind_draw)
    } else if kind_at(p, kind_draw) == ConditionKind::IndicatorIndicator && !has_comparable(
        reg,
        primary,
        all,
        ns,
        indicators,
    ) {
        fallback_kind_at(p, fallback_draw)
    } else {
        kind_at(p, kind_draw)
    }
}

/// The operators of `ops` that are trend operators (or, if `!trend`, that
/// are not), in order.
pub open spec fn fitting_ops(ops: Seq<ConditionOperator>, trend: bool) -> Seq<ConditionOperator>
    decreases ops.len(),
{
    if ops.len() == 0 {
        Seq::empty()
    } else {
        let p = fitting_ops(ops.drop_last(), trend);
        if is_trend_op(ops.last()) == trend {
            p.push(ops.last())
        } else {
            p
        }
    }
}

/// The operator for the draws: the admitted one of the right sort at `pick`
/// (modulo their count); without one, a rising (or above) operator when the
/// coin says so, else a falling (or below) one.
pub open spec fn op_on(reg: BuildRulesRegistry, name: Seq<char>, trend: bool, pick: nat, coin: bool) -> ConditionOperator {
    let f = fitting_ops(admitted_ops(reg, name), trend);
    if f.len() > 0 {
        f[(pick % f.len()) as int]
    } else if trend {
        if coin {
            ConditionOperator::RisingTrend
        } else {
            ConditionOperator::FallingTrend
        }
    } else if coin {
        ConditionOperator::Above
    } else {
        ConditionOperator::Below
    }
}

/// The positions of the indicators of `all` other than `primary` that may be
/// compared with it, in order.
pub open spec fn comparable_positions(
    reg: BuildRulesRegistry,
    primary: IndicatorInfo,
    all: Seq<IndicatorInfo>,
    ns: Seq<NestedIndicator>,
    plain: Seq<IndicatorInfo>,
) -> Seq<int>
    decreases all.len(),
{
    if all.len() == 0 {
        Seq::empty()
    } else {
        let p = comparable_positions(reg, primary, all.drop_last(), ns, plain);
        if all.last().alias@ != primary.alias@ && compare_allowed(reg, primary, all.last(), ns, plain) {
            p.push(all.len() - 1)
        } else {
            p
        }
    }
}

proof fn lemma_comparable_positions(
    reg: BuildRulesRegistry,
    primary: IndicatorInfo,
    all: Seq<IndicatorInfo>,
    ns: Seq<NestedIndicator>,
    plain: Seq<IndicatorInfo>,
)
    ensures
        forall|k: int|
            0 <= k < comparable_positions(reg, primary, all, ns, plain).len() ==> 0 <= #[trigger] comparable_positions(
                reg,
                primary,
                all,
                ns,
                plain,
            )[k] < all.len(),
        comparable_positions(reg, primary, all, ns, plain).len() > 0 <==> has_comparable(reg, primary, all, ns, plain),
    decreases all.len(),
{
    if all.len() > 0 {
        let t = all.drop_last();
        lemma_comparable_positions(reg, primary, t, ns, plain);
        if has_comparable(reg, primary, all, ns, plain) {
            let j = choose|j: int|
                0 <= j < all.len() && (#[trigger] all[j]).alias@ != primary.alias@ && compare_allowed(reg, primary, all[j], ns, plain);
            if j < all.len() - 1 {
                assert(t[j] == all[j]);
            }
        }
        if has_comparable(reg, primary, t, ns, plain) {
            let j = choose|j: int|
                0 <= j < t.len() && (#[trigger] t[j]).alias@ != primary.alias@ && compare_allowed(reg, primary, t[j], ns, plain);
            assert(all[j] == t[j]);
        }
    }
}

/// The positions of the indicators of `all` other than `primary` that may be
/// compared with it.
pub(crate) fn comparable_exec(
    registry: &BuildRulesRegistry,
    primary: &IndicatorInfo,
    all: &Vec<IndicatorInfo>,
    nested: &Vec<NestedIndicator>,
    indicators: &Vec<IndicatorInfo>,
) -> (r: Vec<usize>)
    ensures
        r@.len() == comparable_positions(*registry, *primary, all@, nested@, indicators@).len(),
        forall|k: int|
            0 <= k < r@.len() ==> #[trigger] r@[k] as int == comparable_positions(
                *registry,
                *primary,
                all@,
                nested@,
                indicators@,
            )[k],
        r@.len() > 0 <==> has_comparable(*registry, *primary, all@, nested@, indicators@),
{
    proof {
        lemma_comparable_positions(*registry, *primary, all@, nested@, indicators@);
    }
    let mut r: Vec<usize> = Vec::new();
    let mut j: usize = 0;
    while j < all.len()
        invariant
            j <= all@.len(),
            r@.len() == comparable_positions(*registry, *primary, all@.take(j as int), nested@, indicators@).len(),
            forall|k: int|
                0 <= k < r@.len() ==> #[trigger] r@[k] as int == comparable_positions(
                    *registry,
                    *primary,
                    all@.take(j as int),
                    nested@,
                    indicators@,
                )[k],
        decreases all@.len() - j,
    {
        assert(all@.take(j + 1).drop_last() =~= all@.take(j as int));
        let other = &all[j];
        if !same_text(other.alias.as_str(), primary.alias.as_str()) && can_compare_indicators(
            registry,
            primary,
            other,
            nested.as_slice(),
            indicators.as_slice(),
        ) {
            r.push(j);
        }
        j = j + 1;
    }
    assert(all@.take(all@.len() as int) =~= all@);
    r
}

/// The kind of condition for the draws, as `shape_kind_on` says.
pub(crate) fn shape_kind_exec(
    registry: &BuildRulesRegistry,
    primary: &IndicatorInfo,
    indicators: &Vec<IndicatorInfo>,
    nested: &Vec<NestedIndicator>,
    all: &Vec<IndicatorInfo>,
    comparable: bool,
    probabilities: &ConditionProbabilities,
    kind_draw: u64,
    fallback_draw: u64,
) -> (r: ConditionKind)
    requires
        all@ == bases(indicators@, nested@),
        comparable == has_comparable(*registry, *primary, all@, nested@, indicators@),
    ensures
        r == shape_kind_on(*registry, *primary, indicators@, nested@, *probabilities, kind_draw, fallback_draw),
{
    let used = is_oscillator_used_in_nested(primary, nested.as_slice());
    let on_oscillator = match input_of_exec(nested.as_slice(), all.as_slice(), &primary.alias) {
        Some(x) => has_absolute_threshold(registry, x.name.as_str()),
        None => false,
    };
    let wp = probabilities.use_indicator_price_condition as u64;
    let wi = probabilities.use_indicator_indicator_condition as u64;
    let wt = probabilities.use_trend_condition as u64;
    if has_absolute_threshold(registry, primary.name.as_str()) && !used {
        ConditionKind::IndicatorConstant
    } else if has_percent_of_price_threshold(registry, primary.name.as_str()) {
        ConditionKind::IndicatorConstant
    } else if on_oscillator {
        if wi + wt == 0 {
            ConditionKind::IndicatorIndicator
        } else if kind_draw % (wi + wt) < wi {
            ConditionKind::IndicatorIndicator
        } else {
            ConditionKind::TrendCondition
        }
    } else {
        let total = wp + wi + wt;
        let chosen = if total == 0 {
            ConditionKind::IndicatorPrice
        } else if kind_draw % total < wp {
            ConditionKind::IndicatorPrice
        } else if kind_draw % total < wp + wi {
            ConditionKind::IndicatorIndicator
        } else {
            ConditionKind::TrendCondition
        };
        if chosen == ConditionKind::IndicatorIndicator && !comparable {
            if wp + wt > 0 && fallback_draw % (wp + wt) < wt {
                ConditionKind::TrendCondition
            } else {
                ConditionKind::IndicatorPrice
            }
        } else {
            chosen
        }
    }
}

/// The operator for the draws, as `op_on` says.
pub(crate) fn op_exec(registry: &BuildRulesRegistry, name: &str, trend: bool, pick: usize, coin: bool) -> (r: ConditionOperator)
    ensures
        r == op_on(*registry, name@, trend, pick as nat, coin),
{
    let allowed = get_allowed_conditions(registry, name);
    let mut fitting: Vec<ConditionOperator> = Vec::new();
    let mut i: usize = 0;
    while i < allowed.len()
        invariant
            i <= allowed@.len(),
            fitting@ == fitting_ops(allowed@.take(i as int), trend),
        decreases allowed@.len() - i,
    {
        assert(allowed@.take(i + 1).drop_last() =~= allowed@.take(i as int));
        let op = allowed[i];
        let is_trend = op == ConditionOperator::RisingTrend || op == ConditionOperator::FallingTrend;
        if is_trend == trend {
            fitting.push(op);
        }
        i = i + 1;
    }
    assert(allowed@.take(allowed@.len() as int) =~= allowed@);
    assert(allowed@ == admitted_ops(*registry, name@));
    if fitting.len() > 0 {
        fitting[pick % fitting.len()]
    } else if trend {
        if coin {
            ConditionOperator::RisingTrend
        } else {
            ConditionOperator::FallingTrend
        }
    } else if coin {
        ConditionOperator::Above
    } else {
        ConditionOperator::Below
    }
}

pub(crate) proof fn lemma_comparable_positions_bounds(
    reg: BuildRulesRegistry,
    primary: IndicatorInfo,
    all: Seq<IndicatorInfo>,
    ns: Seq<NestedIndicator>,
    plain: Seq<IndicatorInfo>,
)
    ensures
        forall|k: int|
            0 <= k < comparable_positions(reg, primary, all, ns, plain).len() ==> 0 <= #[trigger] comparable_positions(
                reg,
                primary,
                all,
                ns,
                plain,
            )[k] < all.len(),
{
    lemma_comparable_positions(reg, primary, all, ns, plain);
}

/// The positions of the indicators that may be compared with the primary
/// one are exactly those of the indicators with another alias that
/// `compare_allowed` admits, in ascending order.
pub proof fn law_comparable_positions_exact(
    reg: BuildRulesRegistry,
    primary: IndicatorInfo,
    all: Seq<IndicatorInfo>,
    ns: Seq<NestedIndicator>,
    plain: Seq<IndicatorInfo>,
)
    ensures
        forall|k: int|
            0 <= k < comparable_positions(reg, primary, all, ns, plain).len() ==> {
                let j = #[trigger] comparable_positions(reg, primary, all, ns, plain)[k];
                0 <= j < all.len() && all[j].alias@ != primary.alias@ && compare_allowed(reg, primary, all[j], ns, plain)
            },
        forall|j: int|
            0 <= j < all.len() && (#[trigger] all[j]).alias@ != primary.alias@ && compare_allowed(reg, primary, all[j], ns, plain)
                ==> comparable_positions(reg, primary, all, ns, plain).contains(j),
        forall|k1: int, k2: int|
            0 <= k1 < k2 < comparable_positions(reg, primary, all, ns, plain).len() ==> #[trigger] comparable_positions(
                reg,
                primary,
                all,
                ns,
                plain,
            )[k1] < #[trigger] comparable_positions(reg, primary, all, ns, plain)[k2],
    decreases all.len(),
{
    if all.len() > 0 {
        let t = all.drop_last();
        law_comparable_positions_exact(reg, primary, t, ns, plain);
        let p = comparable_positions(reg, primary, t, ns, plain);
        let r = comparable_positions(reg, primary, all, ns, plain);
        assert forall|k: int| 0 <= k < p.len() implies 0 <= #[trigger] p[k] < t.len() && all[p[k]] == t[p[k]] by {}
        assert forall|k: int| 0 <= k < r.len() implies {
            let j = #[trigger] r[k];
            0 <= j < all.len() && all[j].alias@ != primary.alias@ && compare_allowed(reg, primary, all[j], ns, plain)
        } by {
            if k < p.len() {
                assert(r[k] == p[k]);
            }
        }
        assert forall|j: int|
            0 <= j < all.len() && (#[trigger] all[j]).alias@ != primary.alias@ && compare_allowed(reg, primary, all[j], ns, plain)
            implies r.contains(j) by {
            if j < t.len() {
                assert(t[j] == all[j]);
                assert(p.contains(j));
                let k = choose|k: int| 0 <= k < p.len() && p[k] == j;
                assert(r[k] == p[k]);
            } else {
                assert(all.last() == all[j]);
                assert(r[r.len() - 1] == j);
            }
        }
        assert forall|k1: int, k2: int| 0 <= k1 < k2 < r.len() implies #[trigger] r[k1] < #[trigger] r[k2] by {
            if k2 < p.len() {
                assert(r[k1] == p[k1] && r[k2] == p[k2]);
            } else {
                assert(r[k1] == p[k1]);
            }
        }
    }
}

} // verus!
