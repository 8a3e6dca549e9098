//! Structural helpers of crossover and mutation: which aliases and
//! timeframes a candidate uses, pruning what nothing uses, flipping
//! operators safely, and keeping a child's indicators in line with its
//! conditions.

use vstd::prelude::*;
use crate::model::{
    condition_aliases, opposite_spec, trend_condition_text, ConditionInfo, ConditionKind, ConditionOperator,
    IndicatorInfo, NestedIndicator, StopHandlerInfo, StopHandlerView, StrategyCandidate, StrategyCandidateView,
    TimeFrame, is_kind, operator_name,
};
use crate::operands::{comparison_operator, conflicts, has_conflicting_comparison_operator, is_comparison_operator};
use crate::ranking::texts_of;
use crate::text::{decimal, owned, same_text};
use crate::signature::{law_sorted_set_order_free, render_set, set_rendering};
use crate::random::{new_rng, random_below};
use crate::selection::{find_indicator, find_nested, first_indicator, first_nested, lemma_first_indicator, lemma_first_nested};

verus! {

/// One step of a filter over a prefix.
pub proof fn lemma_filter_step<A>(s: Seq<A>, pred: spec_fn(A) -> bool, i: int)
    requires
        0 <= i < s.len(),
    ensures
        s.take(i + 1).filter(pred) == if pred(s[i]) {
            s.take(i).filter(pred).push(s[i])
        } else {
            s.take(i).filter(pred)
        },
{
    reveal_with_fuel(Seq::<_>::filter, 1);
    assert(s.take(i + 1).drop_last() =~= s.take(i));
}

/// Some condition among the first `m` of the list reads the alias `a`.
pub open spec fn read_before(conds: Seq<ConditionInfo>, m: int, a: Seq<char>) -> bool {
    exists|i: int| 0 <= i < m && condition_aliases(#[trigger] conds[i]).contains(a)
}

/// Some condition of the list reads the alias `a`.
pub open spec fn read_by(conds: Seq<ConditionInfo>, a: Seq<char>) -> bool {
    read_before(conds, conds.len() as int, a)
}

/// Some nested indicator among the first `m` takes the alias `a` as input.
pub open spec fn input_before(ns: Seq<NestedIndicator>, m: int, a: Seq<char>) -> bool {
    exists|i: int| 0 <= i < m && (#[trigger] ns[i]).input_indicator_alias@ == a
}

/// The candidate uses the alias `a`: an entry or exit condition reads it, or
/// a nested indicator takes it as input.
pub open spec fn alias_used(c: StrategyCandidateView, a: Seq<char>) -> bool {
    ||| read_by(c.conditions, a)
    ||| read_by(c.exit_conditions, a)
    ||| input_before(c.nested_indicators, c.nested_indicators.len() as int, a)
}

/// Some condition among the first `m` runs on the timeframe `tf`, as its
/// primary or secondary timeframe.
pub open spec fn runs_before(conds: Seq<ConditionInfo>, m: int, tf: TimeFrame) -> bool {
    exists|i: int|
        0 <= i < m && ((#[trigger] conds[i]).primary_timeframe == Some(tf) || conds[i].secondary_timeframe == Some(tf))
}

/// The candidate uses the timeframe `tf` in an entry or exit condition.
pub open spec fn timeframe_used(c: StrategyCandidateView, tf: TimeFrame) -> bool {
    runs_before(c.conditions, c.conditions.len() as int, tf) || runs_before(
        c.exit_conditions,
        c.exit_conditions.len() as int,
        tf,
    )
}

/// The list holds the text `t`.
pub open spec fn has_text(v: Seq<String>, t: Seq<char>) -> bool {
    exists|j: int| 0 <= j < v.len() && (#[trigger] v[j])@ == t
}

/// No text stands twice in the list.
pub open spec fn distinct_texts(v: Seq<String>) -> bool {
    forall|i: int, j: int| 0 <= i < j < v.len() ==> (#[trigger] v[i])@ != (#[trigger] v[j])@
}

/// Whether the list holds the text `s`.
pub fn contains_text(v: &Vec<String>, s: &str) -> (r: bool)
    ensures
        r == has_text(v@, s@),
{
    let mut i: usize = 0;
    while i < v.len()
        invariant
            i <= v@.len(),
            forall|j: int| 0 <= j < i ==> (#[trigger] v@[j])@ != s@,
        decreases v@.len() - i,
    {
        if same_text(v[i].as_str(), s) {
            return true;
        }
        i = i + 1;
    }
    false
}

/// Adds a text to a list of distinct texts, unless it is there.
pub(crate) fn insert_text(v: Vec<String>, s: &String) -> (r: Vec<String>)
    requires
        distinct_texts(v@),
    ensures
        distinct_texts(r@),
        forall|t: Seq<char>| #[trigger] has_text(r@, t) <==> (has_text(v@, t) || t == s@),
{
    let mut v = v;
    if !contains_text(&v, s.as_str()) {
        let ghost before = v@;
        v.push(s.clone());
        assert forall|t: Seq<char>| #[trigger] has_text(v@, t) <==> (has_text(before, t) || t == s@) by {
            if has_text(v@, t) {
                let j = choose|j: int| 0 <= j < v@.len() && (#[trigger] v@[j])@ == t;
                if j < before.len() {
                    assert(before[j] == v@[j]);
                }
            }
            if has_text(before, t) {
                let j = choose|j: int| 0 <= j < before.len() && (#[trigger] before[j])@ == t;
                assert(v@[j] == before[j]);
            }
            if t == s@ {
                assert(v@[before.len() as int]@ == t);
            }
        }
    }
    v
}

/// Adds a timeframe to a list that holds none twice, unless it is there.
fn insert_timeframe(set: Vec<TimeFrame>, tf: TimeFrame) -> (r: Vec<TimeFrame>)
    requires
        set@.no_duplicates(),
    ensures
        r@.no_duplicates(),
        forall|t: TimeFrame| #[trigger] r@.contains(t) <==> (set@.contains(t) || t == tf),
{
    let mut v = set;
    let mut i: usize = 0;
    while i < v.len()
        invariant
            i <= v@.len(),
            v@ == set@,
            v@.no_duplicates(),
            forall|j: int| 0 <= j < i ==> #[trigger] v@[j] != tf,
        decreases v@.len() - i,
    {
        if v[i] == tf {
            assert(v@[i as int] == tf);
            return v;
        }
        i = i + 1;
    }
    let ghost before = v@;
    v.push(tf);
    assert forall|t: TimeFrame| #[trigger] v@.contains(t) <==> (before.contains(t) || t == tf) by {
        if v@.contains(t) {
            let j = choose|j: int| 0 <= j < v@.len() && v@[j] == t;
            if j < before.len() {
                assert(before[j] == v@[j]);
            }
        }
        if before.contains(t) {
            let j = choose|j: int| 0 <= j < before.len() && before[j] == t;
            assert(v@[j] == before[j]);
        }
        if t == tf {
            assert(v@[before.len() as int] == t);
        }
    }
    v
}

fn add_condition_aliases(set: Vec<String>, conds: &Vec<ConditionInfo>) -> (r: Vec<String>)
    requires
        distinct_texts(set@),
    ensures
        distinct_texts(r@),
        forall|t: Seq<char>| #[trigger] has_text(r@, t) <==> (has_text(set@, t) || read_by(conds@, t)),
{
    let ghost start = set@;
    let mut set = set;
    let mut i: usize = 0;
    while i < conds.len()
        invariant
            i <= conds@.len(),
            distinct_texts(set@),
            forall|t: Seq<char>| #[trigger] has_text(set@, t) <==> (has_text(start, t) || read_before(conds@, i as int, t)),
        decreases conds@.len() - i,
    {
        let aliases = conds[i].all_indicator_aliases();
        let ghost ca = condition_aliases(conds@[i as int]);
        let mut k: usize = 0;
        while k < aliases.len()
            invariant
                k <= aliases@.len(),
                i < conds@.len(),
                ca == condition_aliases(conds@[i as int]),
                aliases@.map_values(|s: String| s@) == ca,
                distinct_texts(set@),
                forall|t: Seq<char>| #[trigger] has_text(set@, t) <==> (has_text(start, t) || read_before(conds@, i as int, t)
                    || exists|q: int| 0 <= q < k && (#[trigger] aliases@[q])@ == t),
            decreases aliases@.len() - k,
        {
            let ghost prev = set@;
            set = insert_text(set, &aliases[k]);
            assert forall|t: Seq<char>| #[trigger] has_text(set@, t) <==> (has_text(start, t) || read_before(conds@, i as int, t)
                || exists|q: int| 0 <= q < k + 1 && (#[trigger] aliases@[q])@ == t) by {
                if exists|q: int| 0 <= q < k + 1 && (#[trigger] aliases@[q])@ == t {
                    let q = choose|q: int| 0 <= q < k + 1 && (#[trigger] aliases@[q])@ == t;
                    if q < k {
                        assert(exists|q2: int| 0 <= q2 < k && (#[trigger] aliases@[q2])@ == t);
                    }
                }
                if exists|q: int| 0 <= q < k && (#[trigger] aliases@[q])@ == t {
                    let q = choose|q: int| 0 <= q < k && (#[trigger] aliases@[q])@ == t;
                    assert(0 <= q < k + 1 && aliases@[q]@ == t);
                }
                if t == aliases@[k as int]@ {
                    assert(0 <= k < k + 1 && aliases@[k as int]@ == t);
                }
            }
            k = k + 1;
        }
        assert forall|t: Seq<char>| (exists|q: int| 0 <= q < aliases@.len() && (#[trigger] aliases@[q])@ == t)
            <==> ca.contains(t) by {
            if exists|q: int| 0 <= q < aliases@.len() && (#[trigger] aliases@[q])@ == t {
                let q = choose|q: int| 0 <= q < aliases@.len() && (#[trigger] aliases@[q])@ == t;
                assert(ca[q] == t);
            }
            if ca.contains(t) {
                let q = choose|q: int| 0 <= q < ca.len() && ca[q] == t;
                assert(aliases@[q]@ == t);
            }
        }
        assert forall|t: Seq<char>| read_before(conds@, i + 1, t) <==> (read_before(conds@, i as int, t) || ca.contains(t)) by {
            if read_before(conds@, i + 1, t) {
                let j = choose|j: int| 0 <= j < i + 1 && condition_aliases(#[trigger] conds@[j]).contains(t);
                if j < i {
                    assert(read_before(conds@, i as int, t));
                }
            }
            if ca.contains(t) {
                assert(condition_aliases(conds@[i as int]).contains(t));
            }
        }
        i = i + 1;
    }
    set
}

/// The aliases the candidate uses, each once.
pub fn get_used_indicator_aliases(candidate: &StrategyCandidate) -> (r: Vec<String>)
    ensures
        distinct_texts(r@),
        forall|a: Seq<char>| #[trigger] has_text(r@, a) <==> alias_used(candidate@, a),
{
    let mut set: Vec<String> = Vec::new();
    set = add_condition_aliases(set, &candidate.conditions);
    set = add_condition_aliases(set, &candidate.exit_conditions);
    let ghost mid = set@;
    let ns = &candidate.nested_indicators;
    let mut i: usize = 0;
    while i < ns.len()
        invariant
            i <= ns@.len(),
            ns@ == candidate@.nested_indicators,
            distinct_texts(set@),
            forall|a: Seq<char>| #[trigger] has_text(mid, a) <==> (read_by(candidate@.conditions, a) || read_by(candidate@.exit_conditions, a)),
            forall|t: Seq<char>| #[trigger] has_text(set@, t) <==> (has_text(mid, t) || input_before(ns@, i as int, t)),
        decreases ns@.len() - i,
    {
        set = insert_text(set, &ns[i].input_indicator_alias);
        assert forall|t: Seq<char>| input_before(ns@, i + 1, t) <==> (input_before(ns@, i as int, t)
            || ns@[i as int].input_indicator_alias@ == t) by {
            if input_before(ns@, i + 1, t) {
                let j = choose|j: int| 0 <= j < i + 1 && (#[trigger] ns@[j]).input_indicator_alias@ == t;
                if j < i {
                    assert(input_before(ns@, i as int, t));
                }
            }
        }
        i = i + 1;
    }
    set
}

fn add_condition_timeframes(set: Vec<TimeFrame>, conds: &Vec<ConditionInfo>) -> (r: Vec<TimeFrame>)
    requires
        set@.no_duplicates(),
    ensures
        r@.no_duplicates(),
        forall|tf: TimeFrame| #[trigger] r@.contains(tf) <==> (set@.contains(tf) || runs_before(conds@, conds@.len() as int, tf)),
{
    let ghost base = set@;
    let mut set = set;
    let mut i: usize = 0;
    while i < conds.len()
        invariant
            i <= conds@.len(),
            set@.no_duplicates(),
            forall|tf: TimeFrame| #[trigger] set@.contains(tf) <==> (base.contains(tf) || runs_before(conds@, i as int, tf)),
        decreases conds@.len() - i,
    {
        match conds[i].primary_timeframe {
            Some(tf) => {
                set = insert_timeframe(set, tf);
            },
            None => {},
        }
        match conds[i].secondary_timeframe {
            Some(tf) => {
                set = insert_timeframe(set, tf);
            },
            None => {},
        }
        assert forall|tf: TimeFrame| runs_before(conds@, i + 1, tf) <==> (runs_before(conds@, i as int, tf)
            || conds@[i as int].primary_timeframe == Some(tf) || conds@[i as int].secondary_timeframe == Some(tf)) by {
            if runs_before(conds@, i + 1, tf) {
                let j = choose|j: int|
                    0 <= j < i + 1 && ((#[trigger] conds@[j]).primary_timeframe == Some(tf) || conds@[j].secondary_timeframe
                        == Some(tf));
                if j < i {
                    assert(runs_before(conds@, i as int, tf));
                }
            }
        }
        i = i + 1;
    }
    set
}

/// The timeframes the candidate's conditions run on, each once.
pub fn get_used_timeframes(candidate: &StrategyCandidate) -> (r: Vec<TimeFrame>)
    ensures
        r@.no_duplicates(),
        forall|tf: TimeFrame| #[trigger] r@.contains(tf) <==> timeframe_used(candidate@, tf),
{
    let mut set: Vec<TimeFrame> = Vec::new();
    set = add_condition_timeframes(set, &candidate.conditions);
    set = add_condition_timeframes(set, &candidate.exit_conditions);
    set
}

fn keep_indicators(v: &Vec<IndicatorInfo>, aliases: &Vec<String>) -> (r: Vec<IndicatorInfo>)
    ensures
        r@ == v@.filter(|x: IndicatorInfo| has_text(aliases@, x.alias@)),
{
    let ghost pred = |x: IndicatorInfo| has_text(aliases@, x.alias@);
    let mut r: Vec<IndicatorInfo> = Vec::new();
    let mut i: usize = 0;
    while i < v.len()
        invariant
            i <= v@.len(),
            pred == (|x: IndicatorInfo| has_text(aliases@, x.alias@)),
            r@ == v@.take(i as int).filter(pred),
        decreases v@.len() - i,
    {
        proof {
            lemma_filter_step(v@, pred, i as int);
        }
        if contains_text(aliases, v[i].alias.as_str()) {
            r.push(v[i].clone());
        }
        i = i + 1;
    }
    assert(v@.take(v@.len() as int) =~= v@);
    r
}

fn keep_nested(v: &Vec<NestedIndicator>, aliases: &Vec<String>) -> (r: Vec<NestedIndicator>)
    ensures
        r@ == v@.filter(|x: NestedIndicator| has_text(aliases@, x.indicator.alias@)),
{
    let ghost pred = |x: NestedIndicator| has_text(aliases@, x.indicator.alias@);
    let mut r: Vec<NestedIndicator> = Vec::new();
    let mut i: usize = 0;
    while i < v.len()
        invariant
            i <= v@.len(),
            pred == (|x: NestedIndicator| has_text(aliases@, x.indicator.alias@)),
            r@ == v@.take(i as int).filter(pred),
        decreases v@.len() - i,
    {
        proof {
            lemma_filter_step(v@, pred, i as int);
        }
        if contains_text(aliases, v[i].indicator.alias.as_str()) {
            r.push(v[i].clone());
        }
        i = i + 1;
    }
    assert(v@.take(v@.len() as int) =~= v@);
    r
}

fn keep_timeframes(v: &Vec<TimeFrame>, used: &Vec<TimeFrame>) -> (r: Vec<TimeFrame>)
    ensures
        r@ == v@.filter(|t: TimeFrame| used@.contains(t)),
{
    let ghost pred = |t: TimeFrame| used@.contains(t);
    let mut r: Vec<TimeFrame> = Vec::new();
    let mut i: usize = 0;
    while i < v.len()
        invariant
            i <= v@.len(),
            pred == (|t: TimeFrame| used@.contains(t)),
            r@ == v@.take(i as int).filter(pred),
        decreases v@.len() - i,
    {
        proof {
            lemma_filter_step(v@, pred, i as int);
        }
        let tf = v[i];
        let mut found = false;
        let mut j: usize = 0;
        while j < used.len()
            invariant
                j <= used@.len(),
                found == exists|k: int| 0 <= k < j && used@[k] == tf,
            decreases used@.len() - j,
        {
            if used[j] == tf {
                found = true;
            }
            j = j + 1;
        }
        if found {
            r.push(tf);
        }
        i = i + 1;
    }
    assert(v@.take(v@.len() as int) =~= v@);
    r
}

/// The candidate without the indicators, nested indicators and timeframes
/// that it does not use, the rest in their order.
pub open spec fn pruned(c: StrategyCandidateView) -> StrategyCandidateView {
    StrategyCandidateView {
        indicators: c.indicators.filter(|x: IndicatorInfo| alias_used(c, x.alias@)),
        nested_indicators: c.nested_indicators.filter(|n: NestedIndicator| alias_used(c, n.indicator.alias@)),
        timeframes: c.timeframes.filter(|t: TimeFrame| timeframe_used(c, t)),
        ..c
    }
}

/// Removes the indicators, nested indicators and timeframes that no
/// condition (and, for aliases, no nested indicator) uses, keeping the order
/// of the rest.
pub fn remove_unused_indicators(candidate: &mut StrategyCandidate)
    ensures
        final(candidate)@ == pruned(old(candidate)@),
{
    let ghost c0 = candidate@;
    let used_aliases = get_used_indicator_aliases(candidate);
    let used_timeframes = get_used_timeframes(candidate);
    let indicators = keep_indicators(&candidate.indicators, &used_aliases);
    let nested = keep_nested(&candidate.nested_indicators, &used_aliases);
    let timeframes = keep_timeframes(&candidate.timeframes, &used_timeframes);
    assert((|x: IndicatorInfo| has_text(used_aliases@, x.alias@)) =~= (|x: IndicatorInfo| alias_used(c0, x.alias@)));
    assert((|n: NestedIndicator| has_text(used_aliases@, n.indicator.alias@)) =~= (|n: NestedIndicator| alias_used(
        c0,
        n.indicator.alias@,
    )));
    assert((|t: TimeFrame| used_timeframes@.contains(t)) =~= (|t: TimeFrame| timeframe_used(c0, t)));
    candidate.indicators = indicators;
    candidate.nested_indicators = nested;
    candidate.timeframes = timeframes;
}

fn keep_conditions_without(v: &Vec<ConditionInfo>, alias: &str) -> (r: Vec<ConditionInfo>)
    ensures
        r@ == v@.filter(|c: ConditionInfo| !condition_aliases(c).contains(alias@)),
{
    let ghost pred = |c: ConditionInfo| !condition_aliases(c).contains(alias@);
    let mut r: Vec<ConditionInfo> = Vec::new();
    let mut i: usize = 0;
    while i < v.len()
        invariant
            i <= v@.len(),
            pred == (|c: ConditionInfo| !condition_aliases(c).contains(alias@)),
            r@ == v@.take(i as int).filter(pred),
        decreases v@.len() - i,
    {
        proof {
            lemma_filter_step(v@, pred, i as int);
        }
        let aliases = v[i].all_indicator_aliases();
        let found = contains_text(&aliases, alias);
        proof {
            let ca = condition_aliases(v@[i as int]);
            if found {
                let j = choose|j: int| 0 <= j < aliases@.len() && (#[trigger] aliases@[j])@ == alias@;
                assert(ca[j] == alias@);
            }
            if ca.contains(alias@) {
                let j = choose|j: int| 0 <= j < ca.len() && ca[j] == alias@;
                assert(aliases@[j]@ == alias@);
            }
        }
        if !found {
            r.push(v[i].clone());
        }
        i = i + 1;
    }
    assert(v@.take(v@.len() as int) =~= v@);
    r
}

/// Removes the entry and exit conditions that read the alias, keeping the
/// order of the rest.
pub fn remove_conditions_with_indicator(candidate: &mut StrategyCandidate, alias: &str)
    ensures
        final(candidate)@ == (StrategyCandidateView {
            conditions: old(candidate)@.conditions.filter(|c: ConditionInfo| !condition_aliases(c).contains(alias@)),
            exit_conditions: old(candidate)@.exit_conditions.filter(
                |c: ConditionInfo| !condition_aliases(c).contains(alias@),
            ),
            ..old(candidate)@
        }),
{
    let conditions = keep_conditions_without(&candidate.conditions, alias);
    let exit_conditions = keep_conditions_without(&candidate.exit_conditions, alias);
    candidate.conditions = conditions;
    candidate.exit_conditions = exit_conditions;
}

/// The opposite operator.
pub fn flip_operator(operator: &ConditionOperator) -> (r: ConditionOperator)
    ensures
        r == opposite_spec(*operator),
{
    operator.opposite()
}

/// The opposite of the operator of condition `idx`, when flipping it causes
/// no conflict: a trend condition or a non-comparison operator always flips;
/// a comparison flips unless, flipped, it conflicts with another condition.
pub open spec fn safe_flip(conds: Seq<ConditionInfo>, idx: int) -> Option<ConditionOperator> {
    let c = conds[idx];
    let flipped = opposite_spec(c.operator);
    if c.condition_type@ == trend_condition_text() || !comparison_operator(c.operator) {
        Some(flipped)
    } else if !conflicts(ConditionInfo { operator: flipped, ..c }, conds.remove(idx)) {
        Some(flipped)
    } else {
        None
    }
}

/// The opposite of the operator of condition `idx`, unless flipping it
/// makes it conflict with another condition.
pub fn get_safe_flipped_operator(conditions: &[ConditionInfo], idx: usize) -> (r: Option<ConditionOperator>)
    requires
        idx < conditions@.len(),
    ensures
        r == safe_flip(conditions@, idx as int),
{
    let condition = &conditions[idx];
    if is_kind(condition.condition_type.as_str(), ConditionKind::TrendCondition) {
        return Some(flip_operator(&condition.operator));
    }
    if !is_comparison_operator(&condition.operator) {
        return Some(flip_operator(&condition.operator));
    }
    let new_operator = flip_operator(&condition.operator);
    let mut test_condition = condition.clone();
    test_condition.operator = new_operator;
    let mut others: Vec<ConditionInfo> = Vec::new();
    let mut i: usize = 0;
    while i < conditions.len()
        invariant
            i <= conditions@.len(),
            idx < conditions@.len(),
            others@ == (if i <= idx {
                conditions@.take(i as int)
            } else {
                conditions@.take(idx as int) + conditions@.subrange(idx + 1, i as int)
            }),
        decreases conditions@.len() - i,
    {
        if i != idx {
            others.push(conditions[i].clone());
        }
        proof {
            if i < idx {
                assert(conditions@.take(i + 1) =~= conditions@.take(i as int).push(conditions@[i as int]));
            } else if i == idx {
                assert(conditions@.take(idx as int) + conditions@.subrange(idx + 1, i + 1) =~= conditions@.take(
                    idx as int,
                ));
            } else {
                assert(conditions@.subrange(idx + 1, i + 1) =~= conditions@.subrange(idx + 1, i as int).push(
                    conditions@[i as int],
                ));
            }
        }
        i = i + 1;
    }
    assert(others@ =~= conditions@.remove(idx as int));
    if !has_conflicting_comparison_operator(&test_condition, others.as_slice()) {
        Some(new_operator)
    } else {
        None
    }
}

/// The candidate has an indicator or a nested indicator with the alias `a`.
pub open spec fn has_alias(c: StrategyCandidateView, a: Seq<char>) -> bool {
    first_indicator(c.indicators, a) is Some || first_nested(c.nested_indicators, a) is Some
}

/// One step of synchronisation: when the child lacks the alias `a`, it takes
/// the first indicator with that alias from the first parent, else from the
/// second, else the first such nested indicator from the first parent, else
/// from the second.
pub open spec fn sync_step(
    c: StrategyCandidateView,
    a: Seq<char>,
    p1: StrategyCandidateView,
    p2: StrategyCandidateView,
) -> StrategyCandidateView {
    if has_alias(c, a) {
        c
    } else if first_indicator(p1.indicators, a) is Some {
        StrategyCandidateView { indicators: c.indicators.push(p1.indicators[first_indicator(p1.indicators, a)->0]), ..c }
    } else if first_indicator(p2.indicators, a) is Some {
        StrategyCandidateView { indicators: c.indicators.push(p2.indicators[first_indicator(p2.indicators, a)->0]), ..c }
    } else if first_nested(p1.nested_indicators, a) is Some {
        StrategyCandidateView {
            nested_indicators: c.nested_indicators.push(p1.nested_indicators[first_nested(p1.nested_indicators, a)->0]),
            ..c
        }
    } else if first_nested(p2.nested_indicators, a) is Some {
        StrategyCandidateView {
            nested_indicators: c.nested_indicators.push(p2.nested_indicators[first_nested(p2.nested_indicators, a)->0]),
            ..c
        }
    } else {
        c
    }
}

/// The child after synchronising the aliases in `order`, one after another.
pub open spec fn synced(
    c: StrategyCandidateView,
    order: Seq<Seq<char>>,
    p1: StrategyCandidateView,
    p2: StrategyCandidateView,
) -> StrategyCandidateView
    decreases order.len(),
{
    if order.len() == 0 {
        c
    } else {
        sync_step(synced(c, order.drop_last(), p1, p2), order.last(), p1, p2)
    }
}

/// The child after synchronisation: synchronised over the aliases it uses,
/// each once, in some order.
pub open spec fn sync_outcome(
    before: StrategyCandidateView,
    p1: StrategyCandidateView,
    p2: StrategyCandidateView,
    after: StrategyCandidateView,
) -> bool {
    exists|order: Seq<Seq<char>>|
        #![trigger synced(before, order, p1, p2)]
        order.no_duplicates() && (forall|a: Seq<char>| #[trigger] order.contains(a) <==> alias_used(before, a))
            && after == synced(before, order, p1, p2)
}

/// Gives the child, for each alias that its conditions or nested indicators
/// use and that it lacks, the indicator with that alias from a parent. The
/// aliases are taken one after another, each once, in some order.
pub fn sync_indicators_with_conditions(
    child: &mut StrategyCandidate,
    parent1: &StrategyCandidate,
    parent2: &StrategyCandidate,
)
    ensures
        sync_outcome(old(child)@, parent1@, parent2@, final(child)@),
{
    let ghost c0 = child@;
    let required = get_used_indicator_aliases(child);
    let ghost order = texts_of(required@);
    let mut k: usize = 0;
    while k < required.len()
        invariant
            k <= required@.len(),
            order == texts_of(required@),
            child@ == synced(c0, order.take(k as int), parent1@, parent2@),
        decreases required@.len() - k,
    {
        let alias = &required[k];
        proof {
            assert(order.take(k + 1).drop_last() =~= order.take(k as int));
            assert(order.take(k + 1).last() == alias@);
        }
        if find_indicator(child.indicators.as_slice(), alias).is_none() && find_nested(
            child.nested_indicators.as_slice(),
            alias,
        ).is_none() {
            match find_indicator(parent1.indicators.as_slice(), alias) {
                Some(i) => {
                    child.indicators.push(parent1.indicators[i].clone());
                },
                None => match find_indicator(parent2.indicators.as_slice(), alias) {
                    Some(i) => {
                        child.indicators.push(parent2.indicators[i].clone());
                    },
                    None => match find_nested(parent1.nested_indicators.as_slice(), alias) {
                        Some(i) => {
                            child.nested_indicators.push(parent1.nested_indicators[i].clone());
                        },
                        None => match find_nested(parent2.nested_indicators.as_slice(), alias) {
                            Some(i) => {
                                child.nested_indicators.push(parent2.nested_indicators[i].clone());
                            },
                            None => {},
                        },
                    },
                },
            }
        }
        k = k + 1;
    }
    proof {
        assert(order.take(required@.len() as int) =~= order);
        assert forall|a: Seq<char>| #[trigger] order.contains(a) <==> alias_used(c0, a) by {
            if order.contains(a) {
                let j = choose|j: int| 0 <= j < order.len() && order[j] == a;
                assert(required@[j]@ == a);
                assert(has_text(required@, a));
            }
            if alias_used(c0, a) {
                assert(has_text(required@, a));
                let j = choose|j: int| 0 <= j < required@.len() && (#[trigger] required@[j])@ == a;
                assert(order[j] == a);
            }
        }
        assert forall|i: int, j: int| 0 <= i < order.len() && 0 <= j < order.len() && i != j implies order[i] != order[j] by {
            if i < j {
                assert(required@[i]@ != required@[j]@);
            } else {
                assert(required@[j]@ != required@[i]@);
            }
        }
    }
}

/// The child after limiting its indicators to `max`: when it has more
/// indicators and nested indicators together, those that nothing uses go;
/// when still too many, nested indicators are dropped from the end, then
/// plain indicators from the end, always keeping at least one.
pub open spec fn limited(c: StrategyCandidateView, max: nat) -> StrategyCandidateView {
    if c.indicators.len() + c.nested_indicators.len() <= max {
        c
    } else {
        let is = c.indicators.filter(|x: IndicatorInfo| alias_used(c, x.alias@));
        let ns = c.nested_indicators.filter(|n: NestedIndicator| alias_used(c, n.indicator.alias@));
        let excess = if is.len() + ns.len() > max { (is.len() + ns.len() - max) as nat } else { 0nat };
        let pn = if excess < ns.len() { excess } else { ns.len() };
        let spare = if is.len() > 1 { (is.len() - 1) as nat } else { 0nat };
        let pi = if (excess - pn) < spare { (excess - pn) as nat } else { spare };
        StrategyCandidateView {
            indicators: is.take(is.len() - pi),
            nested_indicators: ns.take(ns.len() - pn),
            ..c
        }
    }
}

/// Brings the number of indicators and nested indicators down to `max`, as
/// `limited` says.
pub fn enforce_indicator_limits(child: &mut StrategyCandidate, max_indicators: usize)
    ensures
        final(child)@ == limited(old(child)@, max_indicators as nat),
{
    let ghost c0 = child@;
    let total: u128 = child.indicators.len() as u128 + child.nested_indicators.len() as u128;
    if total <= max_indicators as u128 {
        return;
    }
    let used_aliases = get_used_indicator_aliases(child);
    let indicators = keep_indicators(&child.indicators, &used_aliases);
    let nested = keep_nested(&child.nested_indicators, &used_aliases);
    assert((|x: IndicatorInfo| has_text(used_aliases@, x.alias@)) =~= (|x: IndicatorInfo| alias_used(c0, x.alias@)));
    assert((|n: NestedIndicator| has_text(used_aliases@, n.indicator.alias@)) =~= (|n: NestedIndicator| alias_used(
        c0,
        n.indicator.alias@,
    )));
    let ghost is = indicators@;
    let ghost ns = nested@;
    child.indicators = indicators;
    child.nested_indicators = nested;
    assert(is.take(is.len() as int) =~= is);
    assert(ns.take(ns.len() as int) =~= ns);
    let remaining: u128 = child.indicators.len() as u128 + child.nested_indicators.len() as u128;
    if remaining > max_indicators as u128 {
        let excess: u128 = remaining - max_indicators as u128;
        let ghost spare: int = if is.len() > 1 { is.len() - 1 } else { 0 };
        let mut k: u128 = 0;
        while k < excess
            invariant
                k <= excess,
                excess == is.len() + ns.len() - max_indicators,
                spare == (if is.len() > 1 { is.len() - 1 } else { 0 }),
                child@ == (StrategyCandidateView {
                    indicators: is.take(is.len() - popped_plain(k as int, ns.len() as int, spare)),
                    nested_indicators: ns.take(ns.len() - popped_nested(k as int, ns.len() as int)),
                    ..c0
                }),
            decreases excess - k,
        {
            let ghost pn = popped_nested(k as int, ns.len() as int);
            let ghost pi = popped_plain(k as int, ns.len() as int, spare);
            if child.nested_indicators.len() > 0 {
                let ghost before = child.nested_indicators@;
                child.nested_indicators.pop();
                assert(k < ns.len());
                assert(child.nested_indicators@ =~= ns.take(ns.len() - popped_nested(k + 1, ns.len() as int)));
            } else if child.indicators.len() > 1 {
                let ghost before = child.indicators@;
                child.indicators.pop();
                assert(pn == ns.len());
                assert(child.indicators@ =~= is.take(is.len() - popped_plain(k + 1, ns.len() as int, spare)));
            } else {
                assert(pn == ns.len());
            }
            k = k + 1;
        }
    }
}

/// How many nested indicators `k` rounds of trimming drop.
pub open spec fn popped_nested(k: int, nested: int) -> int {
    if k < nested {
        k
    } else {
        nested
    }
}

/// How many plain indicators `k` rounds of trimming drop, after the nested
/// ones, keeping at least one.
pub open spec fn popped_plain(k: int, nested: int, spare: int) -> int {
    if k - popped_nested(k, nested) < spare {
        k - popped_nested(k, nested)
    } else {
        spare
    }
}

/// Some condition of the list has the identifier `id`.
pub open spec fn has_condition_id(conds: Seq<ConditionInfo>, id: Seq<char>) -> bool {
    exists|j: int| 0 <= j < conds.len() && (#[trigger] conds[j]).id@ == id
}

/// The child after taking, for each alias in `aliases` that `base` lacks,
/// the first indicator of the parent with that alias, else the first such
/// nested indicator.
pub open spec fn adopt_aliases(
    c: StrategyCandidateView,
    aliases: Seq<Seq<char>>,
    base: StrategyCandidateView,
    parent: StrategyCandidateView,
) -> StrategyCandidateView
    decreases aliases.len(),
{
    if aliases.len() == 0 {
        c
    } else {
        let prev = adopt_aliases(c, aliases.drop_last(), base, parent);
        let a = aliases.last();
        if has_alias(base, a) {
            prev
        } else if first_indicator(parent.indicators, a) is Some {
            StrategyCandidateView {
                indicators: prev.indicators.push(parent.indicators[first_indicator(parent.indicators, a)->0]),
                ..prev
            }
        } else if first_nested(parent.nested_indicators, a) is Some {
            StrategyCandidateView {
                nested_indicators: prev.nested_indicators.push(
                    parent.nested_indicators[first_nested(parent.nested_indicators, a)->0],
                ),
                ..prev
            }
        } else {
            prev
        }
    }
}

/// One attempt at adding the parent's condition `idx` to the child: it is
/// added, with the indicators it reads that the child lacks, unless the
/// child has a condition with its identifier or it conflicts with one of
/// the child's conditions.
pub open spec fn attempt_condition(c: StrategyCandidateView, parent: StrategyCandidateView, idx: int) -> StrategyCandidateView {
    let cond = parent.conditions[idx];
    if has_condition_id(c.conditions, cond.id@) || conflicts(cond, c.conditions) {
        c
    } else {
        adopt_aliases(
            StrategyCandidateView { conditions: c.conditions.push(cond), ..c },
            condition_aliases(cond),
            c,
            parent,
        )
    }
}

/// The child after the attempts at the parent's conditions `picks`, in
/// order.
pub open spec fn attempts(c: StrategyCandidateView, parent: StrategyCandidateView, picks: Seq<int>) -> StrategyCandidateView
    decreases picks.len(),
{
    if picks.len() == 0 {
        c
    } else {
        attempt_condition(attempts(c, parent, picks.drop_last()), parent, picks.last())
    }
}

fn has_id(conds: &Vec<ConditionInfo>, id: &String) -> (r: bool)
    ensures
        r == has_condition_id(conds@, id@),
{
    let mut j: usize = 0;
    while j < conds.len()
        invariant
            j <= conds@.len(),
            forall|k: int| 0 <= k < j ==> (#[trigger] conds@[k]).id@ != id@,
        decreases conds@.len() - j,
    {
        if same_text(conds[j].id.as_str(), id.as_str()) {
            return true;
        }
        j = j + 1;
    }
    false
}

fn attempt_condition_exec(child: &mut StrategyCandidate, parent: &StrategyCandidate, idx: usize)
    requires
        idx < parent@.conditions.len(),
    ensures
        final(child)@ == attempt_condition(old(child)@, parent@, idx as int),
{
    let ghost c0 = child@;
    let cond = &parent.conditions[idx];
    if has_id(&child.conditions, &cond.id) || has_conflicting_comparison_operator(cond, child.conditions.as_slice()) {
        return;
    }
    child.conditions.push(cond.clone());
    let aliases = cond.all_indicator_aliases();
    let ghost ca = condition_aliases(*cond);
    let mut present: Vec<bool> = Vec::new();
    let mut k: usize = 0;
    while k < aliases.len()
        invariant
            k <= aliases@.len(),
            child@.indicators == c0.indicators,
            child@.nested_indicators == c0.nested_indicators,
            present@.len() == k,
            forall|q: int| 0 <= q < k ==> #[trigger] present@[q] == has_alias(c0, aliases@[q]@),
        decreases aliases@.len() - k,
    {
        let a = &aliases[k];
        present.push(
            find_indicator(child.indicators.as_slice(), a).is_some() || find_nested(
                child.nested_indicators.as_slice(),
                a,
            ).is_some(),
        );
        k = k + 1;
    }
    let ghost c1 = child@;
    assert(c1 == (StrategyCandidateView { conditions: c0.conditions.push(*cond), ..c0 }));
    let mut k: usize = 0;
    while k < aliases.len()
        invariant
            k <= aliases@.len(),
            present@.len() == aliases@.len(),
            aliases@.map_values(|s: String| s@) == ca,
            forall|q: int| 0 <= q < aliases@.len() ==> #[trigger] present@[q] == has_alias(c0, aliases@[q]@),
            child@ == adopt_aliases(c1, ca.take(k as int), c0, parent@),
        decreases aliases@.len() - k,
    {
        let a = &aliases[k];
        proof {
            assert(ca.take(k + 1).drop_last() =~= ca.take(k as int));
            assert(ca.take(k + 1).last() == a@);
        }
        if !present[k] {
            match find_indicator(parent.indicators.as_slice(), a) {
                Some(i) => {
                    child.indicators.push(parent.indicators[i].clone());
                },
                None => match find_nested(parent.nested_indicators.as_slice(), a) {
                    Some(i) => {
                        child.nested_indicators.push(parent.nested_indicators[i].clone());
                    },
                    None => {},
                },
            }
        }
        k = k + 1;
    }
    assert(ca.take(aliases@.len() as int) =~= ca);
}

/// The child after topping up: after some attempts, at most three times as
/// many as the parent has conditions, each at one of the parent's
/// conditions, made while the child had fewer than `min` conditions and
/// stopping when it has enough or the attempts are spent.
pub open spec fn topped_up_outcome(
    before: StrategyCandidateView,
    parent: StrategyCandidateView,
    min: nat,
    after: StrategyCandidateView,
) -> bool {
    exists|picks: Seq<int>|
        #![trigger attempts(before, parent, picks)]
        picks.len() <= 3 * parent.conditions.len() && (forall|q: int|
            0 <= q < picks.len() ==> 0 <= #[trigger] picks[q] < parent.conditions.len()) && after == attempts(
            before,
            parent,
            picks,
        ) && (forall|q: int|
            0 <= q < picks.len() ==> #[trigger] attempts(before, parent, picks.take(q)).conditions.len() < min) && (
        picks.len() == 3 * parent.conditions.len() || after.conditions.len() >= min)
}

/// Tops up the child's entry conditions from the parent's, chosen at random,
/// while the child has fewer than `min_conditions` and at most three times
/// as many attempts as the parent has conditions. Whatever is drawn, the
/// child ends as after some sequence of attempts (see `attempt_condition`),
/// each at one of the parent's conditions, stopping as soon as the child has
/// enough conditions or the attempts are spent.
pub fn ensure_minimum_conditions(child: &mut StrategyCandidate, fallback_parent: &StrategyCandidate, min_conditions: usize)
    ensures
        old(child)@.conditions.len() >= min_conditions || fallback_parent@.conditions.len() == 0 ==> final(child)@
            == old(child)@,
        topped_up_outcome(old(child)@, fallback_parent@, min_conditions as nat, final(child)@),
{
    let ghost c0 = child@;
    let ghost mut picks: Seq<int> = Seq::empty();
    let n = fallback_parent.conditions.len();
    if child.conditions.len() < min_conditions && n > 0 {
        let mut rng = new_rng();
        let max_attempts: u128 = n as u128 * 3;
        let mut attempts_made: u128 = 0;
        while child.conditions.len() < min_conditions && attempts_made < max_attempts
            invariant
                n == fallback_parent@.conditions.len(),
                n > 0,
                max_attempts == 3 * n,
                attempts_made == picks.len(),
                attempts_made <= max_attempts,
                forall|q: int| 0 <= q < picks.len() ==> 0 <= #[trigger] picks[q] < n,
                child@ == attempts(c0, fallback_parent@, picks),
                forall|q: int| 0 <= q < picks.len() ==> #[trigger] attempts(c0, fallback_parent@, picks.take(q)).conditions.len()
                    < min_conditions,
            decreases max_attempts - attempts_made,
        {
            let ghost before = picks;
            attempts_made = attempts_made + 1;
            let idx = random_below(&mut rng, n);
            attempt_condition_exec(child, fallback_parent, idx);
            proof {
                picks = picks.push(idx as int);
                assert(picks.drop_last() =~= before);
                assert forall|q: int| 0 <= q < picks.len() implies #[trigger] attempts(
                    c0,
                    fallback_parent@,
                    picks.take(q),
                ).conditions.len() < min_conditions by {
                    if q < before.len() {
                        assert(picks.take(q) =~= before.take(q));
                    } else {
                        assert(picks.take(q) =~= before);
                    }
                }
            }
        }
    }
    assert(picks.len() == 0 ==> attempts(c0, fallback_parent@, picks) == c0);
}

/// A nested indicator in a signature: its input alias, "->", its alias.
pub open spec fn nested_part(n: NestedIndicator) -> Seq<char> {
    n.input_indicator_alias@ + seq!['-', '>'] + n.indicator.alias@
}

/// A condition in a signature: its type, identifier and operator, separated
/// by colons.
pub open spec fn condition_part(c: ConditionInfo) -> Seq<char> {
    c.condition_type@ + seq![':'] + c.id@ + seq![':'] + operator_name(c.operator)
}

proof fn lemma_operator_names_distinct(a: ConditionOperator, b: ConditionOperator)
    ensures
        operator_name(a) == operator_name(b) ==> a == b,
{
    if operator_name(a) == operator_name(b) && a != b {
        let x = operator_name(a);
        let y = operator_name(b);
        assert(x.len() == y.len());
        assert(x[0] == y[0]);
        assert(x[x.len() - 1] == y[y.len() - 1]);
        if x.len() == 12 {
            assert(x[7] == y[7]);
        }
    }
}

/// Two conditions of the same type and identifier are told apart in a
/// signature by their operators: their parts are equal exactly when their
/// operators are.
pub proof fn law_condition_part_tells_operators_apart(x: ConditionInfo, y: ConditionInfo)
    requires
        x.condition_type@ == y.condition_type@,
        x.id@ == y.id@,
    ensures
        condition_part(x) == condition_part(y) <==> x.operator == y.operator,
{
    let head = x.condition_type@ + seq![':'] + x.id@ + seq![':'];
    assert(condition_part(x) =~= head + operator_name(x.operator));
    assert(condition_part(y) =~= head + operator_name(y.operator));
    if condition_part(x) == condition_part(y) {
        lemma_cancel_prefix(head, operator_name(x.operator), operator_name(y.operator));
        lemma_operator_names_distinct(x.operator, y.operator);
    }
}

/// The indicator aliases of a candidate, as its signature takes them.
pub open spec fn alias_texts(c: StrategyCandidateView) -> Seq<Seq<char>> {
    c.indicators.map_values(|i: IndicatorInfo| i.alias@)
}

/// The nested indicators of a candidate, as its signature takes them.
pub open spec fn nested_texts(c: StrategyCandidateView) -> Seq<Seq<char>> {
    c.nested_indicators.map_values(|n: NestedIndicator| nested_part(n))
}

/// Conditions as a signature takes them.
pub open spec fn condition_texts(s: Seq<ConditionInfo>) -> Seq<Seq<char>> {
    s.map_values(|x: ConditionInfo| condition_part(x))
}

/// Handler names as a signature takes them.
pub open spec fn handler_texts(s: Seq<StopHandlerView>) -> Seq<Seq<char>> {
    s.map_values(|h: StopHandlerView| h.handler_name@)
}

/// Timeframes (by identifier) as a signature takes them.
pub open spec fn timeframe_texts(s: Seq<TimeFrame>) -> Seq<Seq<char>> {
    s.map_values(|t: TimeFrame| decimal(t.minutes as nat))
}

/// The structural signature of a candidate: the sets of its indicator
/// aliases, nested indicators, entry and exit conditions, stop and take
/// handler names and timeframes (by identifier), each rendered as a set.
pub open spec fn candidate_signature_text(c: StrategyCandidateView) -> Seq<char> {
    "indicators:"@ + set_rendering(alias_texts(c)) + "|nested:"@ + set_rendering(nested_texts(c)) + "|conditions:"@
        + set_rendering(condition_texts(c.conditions)) + "|exit:"@ + set_rendering(condition_texts(c.exit_conditions))
        + "|stops:"@ + set_rendering(handler_texts(c.stop_handlers)) + "|takes:"@ + set_rendering(
        handler_texts(c.take_handlers),
    ) + "|timeframes:"@ + set_rendering(timeframe_texts(c.timeframes))
}

/// Candidates whose indicator aliases, nested indicators, entry conditions,
/// exit conditions (each by type, identifier and operator), stop handler
/// names, take handler names and timeframes form the same sets get the same
/// signature: the order and repeats of these parts, and everything else of
/// the candidates, do not count.
pub proof fn law_signature_of_equal_structures(c1: StrategyCandidateView, c2: StrategyCandidateView)
    requires
        alias_texts(c1).to_set() == alias_texts(c2).to_set(),
        nested_texts(c1).to_set() == nested_texts(c2).to_set(),
        condition_texts(c1.conditions).to_set() == condition_texts(c2.conditions).to_set(),
        condition_texts(c1.exit_conditions).to_set() == condition_texts(c2.exit_conditions).to_set(),
        handler_texts(c1.stop_handlers).to_set() == handler_texts(c2.stop_handlers).to_set(),
        handler_texts(c1.take_handlers).to_set() == handler_texts(c2.take_handlers).to_set(),
        timeframe_texts(c1.timeframes).to_set() == timeframe_texts(c2.timeframes).to_set(),
    ensures
        candidate_signature_text(c1) == candidate_signature_text(c2),
{
    law_sorted_set_order_free(alias_texts(c1), alias_texts(c2));
    law_sorted_set_order_free(nested_texts(c1), nested_texts(c2));
    law_sorted_set_order_free(condition_texts(c1.conditions), condition_texts(c2.conditions));
    law_sorted_set_order_free(condition_texts(c1.exit_conditions), condition_texts(c2.exit_conditions));
    law_sorted_set_order_free(handler_texts(c1.stop_handlers), handler_texts(c2.stop_handlers));
    law_sorted_set_order_free(handler_texts(c1.take_handlers), handler_texts(c2.take_handlers));
    law_sorted_set_order_free(timeframe_texts(c1.timeframes), timeframe_texts(c2.timeframes));
}

proof fn lemma_cancel_prefix(p: Seq<char>, x: Seq<char>, y: Seq<char>)
    requires
        p + x == p + y,
    ensures
        x == y,
{
    assert((p + x).len() == p.len() + x.len());
    assert((p + y).len() == p.len() + y.len());
    assert forall|i: int| 0 <= i < x.len() implies x[i] == y[i] by {
        assert((p + x)[p.len() + i] == x[i]);
        assert((p + y)[p.len() + i] == y[i]);
    }
    assert(x =~= y);
}

proof fn lemma_cancel_suffix(x: Seq<char>, y: Seq<char>, t: Seq<char>)
    requires
        x + t == y + t,
    ensures
        x == y,
{
    assert((x + t).len() == x.len() + t.len());
    assert((y + t).len() == y.len() + t.len());
    assert forall|i: int| 0 <= i < x.len() implies x[i] == y[i] by {
        assert((x + t)[i] == x[i]);
        assert((y + t)[i] == y[i]);
    }
    assert(x =~= y);
}

/// The parts of a candidate that its signature is made of, in the order in
/// which it takes them: indicator aliases, nested indicators, entry
/// conditions, exit conditions, stop handler names, take handler names and
/// timeframes.
pub open spec fn part_texts(c: StrategyCandidateView) -> Seq<Seq<Seq<char>>> {
    seq![
        alias_texts(c),
        nested_texts(c),
        condition_texts(c.conditions),
        condition_texts(c.exit_conditions),
        handler_texts(c.stop_handlers),
        handler_texts(c.take_handlers),
        timeframe_texts(c.timeframes),
    ]
}

/// The labels that stand before the parts in a signature.
spec fn part_labels() -> Seq<Seq<char>> {
    seq!["indicators:"@, "|nested:"@, "|conditions:"@, "|exit:"@, "|stops:"@, "|takes:"@, "|timeframes:"@]
}

/// The first `n` renderings, each after its label.
spec fn labelled(rs: Seq<Seq<char>>, n: nat) -> Seq<char>
    decreases n,
{
    if n == 0 {
        Seq::empty()
    } else {
        labelled(rs, (n - 1) as nat) + part_labels()[n - 1] + rs[n - 1]
    }
}

proof fn lemma_labelled_signature(c: StrategyCandidateView)
    ensures
        candidate_signature_text(c) == labelled(part_texts(c).map_values(|t: Seq<Seq<char>>| set_rendering(t)), 7),
{
    let rs = part_texts(c).map_values(|t: Seq<Seq<char>>| set_rendering(t));
    reveal_with_fuel(labelled, 8);
    assert(rs[0] == set_rendering(alias_texts(c)));
    assert(rs[1] == set_rendering(nested_texts(c)));
    assert(rs[2] == set_rendering(condition_texts(c.conditions)));
    assert(rs[3] == set_rendering(condition_texts(c.exit_conditions)));
    assert(rs[4] == set_rendering(handler_texts(c.stop_handlers)));
    assert(rs[5] == set_rendering(handler_texts(c.take_handlers)));
    assert(rs[6] == set_rendering(timeframe_texts(c.timeframes)));
    assert(candidate_signature_text(c) =~= labelled(rs, 7));
}

proof fn lemma_labelled_tells_apart(r: Seq<Seq<char>>, q: Seq<Seq<char>>, n: nat, k: int)
    requires
        0 <= k < n,
        n <= r.len(),
        n <= q.len(),
        forall|i: int| 0 <= i < n && i != k ==> r[i] == q[i],
    ensures
        labelled(r, n) == labelled(q, n) <==> r[k] == q[k],
    decreases n,
{
    let lab = part_labels()[n - 1];
    if k == n - 1 {
        assert(labelled(r, (n - 1) as nat) == labelled(q, (n - 1) as nat)) by {
            if n - 1 > 0 {
                lemma_labelled_same(r, q, (n - 1) as nat);
            }
        }
        if labelled(r, n) == labelled(q, n) {
            lemma_cancel_prefix(labelled(r, (n - 1) as nat) + lab, r[k], q[k]);
        }
    } else {
        lemma_labelled_tells_apart(r, q, (n - 1) as nat, k);
        assert(r[n - 1] == q[n - 1]);
        if labelled(r, n) == labelled(q, n) {
            assert(labelled(r, n) =~= labelled(r, (n - 1) as nat) + (lab + r[n - 1]));
            assert(labelled(q, n) =~= labelled(q, (n - 1) as nat) + (lab + r[n - 1]));
            lemma_cancel_suffix(labelled(r, (n - 1) as nat), labelled(q, (n - 1) as nat), lab + r[n - 1]);
        }
    }
}

proof fn lemma_labelled_same(r: Seq<Seq<char>>, q: Seq<Seq<char>>, n: nat)
    requires
        n <= r.len(),
        n <= q.len(),
        forall|i: int| 0 <= i < n ==> r[i] == q[i],
    ensures
        labelled(r, n) == labelled(q, n),
    decreases n,
{
    if n > 0 {
        lemma_labelled_same(r, q, (n - 1) as nat);
    }
}

/// The signature tells each of its parts apart: of two candidates whose
/// other parts form the same sets, the signatures are equal exactly when
/// the renderings of the set of that part are equal. So two candidates
/// that differ only in their stop handlers (or only in any one other part)
/// get different signatures as soon as those sets render differently.
pub proof fn law_signature_tells_parts_apart(c1: StrategyCandidateView, c2: StrategyCandidateView, k: int)
    requires
        0 <= k < 7,
        forall|i: int| 0 <= i < 7 && i != k ==> (#[trigger] part_texts(c1)[i]).to_set() == part_texts(c2)[i].to_set(),
    ensures
        candidate_signature_text(c1) == candidate_signature_text(c2) <==> set_rendering(part_texts(c1)[k])
            == set_rendering(part_texts(c2)[k]),
{
    let r = part_texts(c1).map_values(|t: Seq<Seq<char>>| set_rendering(t));
    let q = part_texts(c2).map_values(|t: Seq<Seq<char>>| set_rendering(t));
    assert forall|i: int| 0 <= i < 7 && i != k implies r[i] == q[i] by {
        law_sorted_set_order_free(part_texts(c1)[i], part_texts(c2)[i]);
    }
    lemma_labelled_signature(c1);
    lemma_labelled_signature(c2);
    lemma_labelled_tells_apart(r, q, 7, k);
}

fn condition_parts(v: &Vec<ConditionInfo>) -> (r: Vec<String>)
    ensures
        texts_of(r@) == v@.map_values(|x: ConditionInfo| condition_part(x)),
{
    let mut r: Vec<String> = Vec::new();
    let mut i: usize = 0;
    while i < v.len()
        invariant
            i <= v@.len(),
            r@.len() == i,
            forall|j: int| 0 <= j < i ==> (#[trigger] r@[j])@ == condition_part(v@[j]),
        decreases v@.len() - i,
    {
        let c = &v[i];
        let mut part = c.condition_type.clone();
        proof {
            reveal_strlit(":");
        }
        part.append(":");
        part.append(c.id.as_str());
        part.append(":");
        part.append(c.operator.name());
        assert(part@ =~= condition_part(v@[i as int]));
        r.push(part);
        i = i + 1;
    }
    assert(texts_of(r@) =~= v@.map_values(|x: ConditionInfo| condition_part(x)));
    r
}

fn handler_names(v: &Vec<StopHandlerInfo>) -> (r: Vec<String>)
    ensures
        texts_of(r@) == v@.map_values(|h: StopHandlerInfo| h@).map_values(|h: StopHandlerView| h.handler_name@),
{
    let mut r: Vec<String> = Vec::new();
    let mut i: usize = 0;
    while i < v.len()
        invariant
            i <= v@.len(),
            r@.len() == i,
            forall|j: int| 0 <= j < i ==> (#[trigger] r@[j])@ == v@[j].handler_name@,
        decreases v@.len() - i,
    {
        r.push(v[i].handler_name.clone());
        i = i + 1;
    }
    assert(texts_of(r@) =~= v@.map_values(|h: StopHandlerInfo| h@).map_values(|h: StopHandlerView| h.handler_name@));
    r
}

/// The structural signature of a candidate, by which strategies of the same
/// structure are grouped.
pub fn get_strategy_signature(candidate: &StrategyCandidate) -> (r: String)
    ensures
        r@ == candidate_signature_text(candidate@),
{
    let mut aliases: Vec<String> = Vec::new();
    let mut i: usize = 0;
    while i < candidate.indicators.len()
        invariant
            i <= candidate.indicators@.len(),
            aliases@.len() == i,
            forall|j: int| 0 <= j < i ==> (#[trigger] aliases@[j])@ == candidate.indicators@[j].alias@,
        decreases candidate.indicators@.len() - i,
    {
        aliases.push(candidate.indicators[i].alias.clone());
        i = i + 1;
    }
    assert(texts_of(aliases@) =~= alias_texts(candidate@));
    let mut nested: Vec<String> = Vec::new();
    let mut i: usize = 0;
    while i < candidate.nested_indicators.len()
        invariant
            i <= candidate.nested_indicators@.len(),
            nested@.len() == i,
            forall|j: int| 0 <= j < i ==> (#[trigger] nested@[j])@ == nested_part(candidate.nested_indicators@[j]),
        decreases candidate.nested_indicators@.len() - i,
    {
        let n = &candidate.nested_indicators[i];
        let mut part = n.input_indicator_alias.clone();
        proof {
            reveal_strlit("->");
        }
        part.append("->");
        part.append(n.indicator.alias.as_str());
        assert(part@ =~= nested_part(candidate.nested_indicators@[i as int]));
        nested.push(part);
        i = i + 1;
    }
    assert(texts_of(nested@) =~= nested_texts(candidate@));
    let mut frames: Vec<String> = Vec::new();
    let mut i: usize = 0;
    while i < candidate.timeframes.len()
        invariant
            i <= candidate.timeframes@.len(),
            frames@.len() == i,
            forall|j: int| 0 <= j < i ==> (#[trigger] frames@[j])@ == decimal(candidate.timeframes@[j].minutes as nat),
        decreases candidate.timeframes@.len() - i,
    {
        frames.push(candidate.timeframes[i].identifier());
        i = i + 1;
    }
    assert(texts_of(frames@) =~= timeframe_texts(candidate@.timeframes));
    let mut r = owned("indicators:");
    r.append(render_set(&aliases).as_str());
    r.append("|nested:");
    r.append(render_set(&nested).as_str());
    r.append("|conditions:");
    r.append(render_set(&condition_parts(&candidate.conditions)).as_str());
    r.append("|exit:");
    r.append(render_set(&condition_parts(&candidate.exit_conditions)).as_str());
    r.append("|stops:");
    r.append(render_set(&handler_names(&candidate.stop_handlers)).as_str());
    r.append("|takes:");
    r.append(render_set(&handler_names(&candidate.take_handlers)).as_str());
    r.append("|timeframes:");
    r.append(render_set(&frames).as_str());
    assert(r@ =~= candidate_signature_text(candidate@));
    r
}

/// Limiting brings the count of indicators and nested indicators down to
/// the limit, unless only one plain indicator (or none) is left.
pub proof fn law_limited_within_bound(c: StrategyCandidateView, max: nat)
    ensures
        limited(c, max).indicators.len() + limited(c, max).nested_indicators.len() <= max || (limited(
            c,
            max,
        ).nested_indicators.len() == 0 && limited(c, max).indicators.len() <= 1),
{
}

/// Pruning keeps exactly the indicators, nested indicators and timeframes
/// that the candidate uses, in their order.
pub proof fn law_pruned_are_used(c: StrategyCandidateView, i: int)
    ensures
        0 <= i < c.indicators.filter(|x: IndicatorInfo| alias_used(c, x.alias@)).len() ==> alias_used(
            c,
            c.indicators.filter(|x: IndicatorInfo| alias_used(c, x.alias@))[i].alias@,
        ),
        0 <= i < c.indicators.len() && alias_used(c, c.indicators[i].alias@) ==> c.indicators.filter(
            |x: IndicatorInfo| alias_used(c, x.alias@),
        ).contains(c.indicators[i]),
{
    broadcast use vstd::seq_lib::group_filter_ensures;

}

proof fn lemma_sync_step_keeps(c: StrategyCandidateView, b: Seq<char>, p1: StrategyCandidateView, p2: StrategyCandidateView, a: Seq<char>)
    requires
        has_alias(c, a),
    ensures
        has_alias(sync_step(c, b, p1, p2), a),
{
    let r = sync_step(c, b, p1, p2);
    lemma_first_indicator(c.indicators, a);
    lemma_first_nested(c.nested_indicators, a);
    lemma_first_indicator(r.indicators, a);
    lemma_first_nested(r.nested_indicators, a);
    if first_indicator(c.indicators, a) is Some {
        let i = first_indicator(c.indicators, a)->0;
        assert(r.indicators[i] == c.indicators[i]);
    } else {
        let j = first_nested(c.nested_indicators, a)->0;
        assert(r.nested_indicators[j] == c.nested_indicators[j]);
    }
}

proof fn lemma_sync_step_supplies(c: StrategyCandidateView, a: Seq<char>, p1: StrategyCandidateView, p2: StrategyCandidateView)
    requires
        has_alias(c, a) || has_alias(p1, a) || has_alias(p2, a),
    ensures
        has_alias(sync_step(c, a, p1, p2), a),
{
    let r = sync_step(c, a, p1, p2);
    if !has_alias(c, a) {
        lemma_first_indicator(r.indicators, a);
        lemma_first_nested(r.nested_indicators, a);
        lemma_first_indicator(p1.indicators, a);
        lemma_first_indicator(p2.indicators, a);
        lemma_first_nested(p1.nested_indicators, a);
        lemma_first_nested(p2.nested_indicators, a);
        if first_indicator(p1.indicators, a) is Some || first_indicator(p2.indicators, a) is Some {
            assert(r.indicators.last().alias@ == a);
            assert(r.indicators[r.indicators.len() - 1].alias@ == a);
        } else {
            assert(r.nested_indicators[r.nested_indicators.len() - 1].indicator.alias@ == a);
        }
    }
}

/// Synchronising supplies every alias taken in turn that the child or a
/// parent has: afterwards the child has it.
pub proof fn law_sync_supplies(
    c: StrategyCandidateView,
    order: Seq<Seq<char>>,
    p1: StrategyCandidateView,
    p2: StrategyCandidateView,
    a: Seq<char>,
)
    requires
        order.contains(a),
        has_alias(c, a) || has_alias(p1, a) || has_alias(p2, a),
    ensures
        has_alias(synced(c, order, p1, p2), a),
    decreases order.len(),
{
    let prev = synced(c, order.drop_last(), p1, p2);
    if order.last() == a {
        if has_alias(c, a) && order.drop_last().contains(a) {
            law_sync_supplies(c, order.drop_last(), p1, p2, a);
        } else if has_alias(c, a) {
            lemma_synced_keeps(c, order.drop_last(), p1, p2, a);
        }
        lemma_sync_step_supplies(prev, a, p1, p2);
    } else {
        let k = choose|k: int| 0 <= k < order.len() && order[k] == a;
        assert(order.drop_last()[k] == a);
        law_sync_supplies(c, order.drop_last(), p1, p2, a);
        lemma_sync_step_keeps(prev, order.last(), p1, p2, a);
    }
}

proof fn lemma_synced_keeps(c: StrategyCandidateView, order: Seq<Seq<char>>, p1: StrategyCandidateView, p2: StrategyCandidateView, a: Seq<char>)
    requires
        has_alias(c, a),
    ensures
        has_alias(synced(c, order, p1, p2), a),
    decreases order.len(),
{
    if order.len() > 0 {
        lemma_synced_keeps(c, order.drop_last(), p1, p2, a);
        lemma_sync_step_keeps(synced(c, order.drop_last(), p1, p2), order.last(), p1, p2, a);
    }
}

proof fn lemma_adopt_keeps_conditions(c: StrategyCandidateView, aliases: Seq<Seq<char>>, base: StrategyCandidateView, parent: StrategyCandidateView)
    ensures
        adopt_aliases(c, aliases, base, parent).conditions == c.conditions,
    decreases aliases.len(),
{
    if aliases.len() > 0 {
        lemma_adopt_keeps_conditions(c, aliases.drop_last(), base, parent);
    }
}

/// No two conditions share an identifier.
pub open spec fn distinct_ids(conds: Seq<ConditionInfo>) -> bool {
    forall|i: int, j: int| 0 <= i < j < conds.len() ==> (#[trigger] conds[i]).id@ != (#[trigger] conds[j]).id@
}

/// Topping up conditions only appends conditions of the parent, and never
/// gives the child two conditions with the same identifier when it had
/// none.
pub proof fn law_attempts_append_distinct(c: StrategyCandidateView, parent: StrategyCandidateView, picks: Seq<int>)
    requires
        forall|q: int| 0 <= q < picks.len() ==> 0 <= #[trigger] picks[q] < parent.conditions.len(),
    ensures
        attempts(c, parent, picks).conditions.len() >= c.conditions.len(),
        attempts(c, parent, picks).conditions.take(c.conditions.len() as int) == c.conditions,
        forall|k: int|
            c.conditions.len() <= k < attempts(c, parent, picks).conditions.len() ==> parent.conditions.contains(
                #[trigger] attempts(c, parent, picks).conditions[k],
            ),
        distinct_ids(c.conditions) ==> distinct_ids(attempts(c, parent, picks).conditions),
    decreases picks.len(),
{
    if picks.len() > 0 {
        let prev = attempts(c, parent, picks.drop_last());
        assert forall|q: int| 0 <= q < picks.drop_last().len() implies 0 <= #[trigger] picks.drop_last()[q]
            < parent.conditions.len() by {
            assert(picks.drop_last()[q] == picks[q]);
        }
        law_attempts_append_distinct(c, parent, picks.drop_last());
        let idx = picks.last();
        let cond = parent.conditions[idx];
        let cur = attempts(c, parent, picks);
        if !(has_condition_id(prev.conditions, cond.id@) || conflicts(cond, prev.conditions)) {
            lemma_adopt_keeps_conditions(
                StrategyCandidateView { conditions: prev.conditions.push(cond), ..prev },
                condition_aliases(cond),
                prev,
                parent,
            );
            assert(cur.conditions == prev.conditions.push(cond));
            assert(cur.conditions.take(c.conditions.len() as int) =~= prev.conditions.take(c.conditions.len() as int));
            assert forall|k: int| c.conditions.len() <= k < cur.conditions.len() implies parent.conditions.contains(
                #[trigger] cur.conditions[k],
            ) by {
                if k == cur.conditions.len() - 1 {
                    assert(parent.conditions[idx] == cur.conditions[k]);
                } else {
                    assert(cur.conditions[k] == prev.conditions[k]);
                }
            }
            if distinct_ids(c.conditions) {
                assert forall|i: int, j: int| 0 <= i < j < cur.conditions.len() implies (
                #[trigger] cur.conditions[i]).id@ != (#[trigger] cur.conditions[j]).id@ by {
                    if j == cur.conditions.len() - 1 {
                        assert(cur.conditions[i] == prev.conditions[i]);
                    } else {
                        assert(cur.conditions[i] == prev.conditions[i]);
                        assert(cur.conditions[j] == prev.conditions[j]);
                    }
                }
            }
        }
    }
}

} // verus!
