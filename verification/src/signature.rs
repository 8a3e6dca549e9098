//! Textual signatures of strategies: sorted parts joined by a separator.
//! Two strategies with the same signature count as duplicates, and the
//! signatures key the cache of backtest results.

use vstd::prelude::*;
use crate::model::{EvaluatedStrategy, EvaluatedStrategyView, ParamEntry, StrategyCandidate, StrategyCandidateView};
use crate::ranking::{
    distinct_keys, is_bijection, key_less, key_ranks, law_stable_sorted_ordered, lemma_key_less_total, lemma_rank_onto,
    lemma_sorted_at, lemma_stable_sorted_rearranged, order_from_ranks, rank, rearranged, stable_sorted, strict_total,
    text_ranks, texts_of,
};
use crate::model::TimeFrame;
use crate::text::{debug_quoted, debug_text, decimal, lemma_text_order_total, owned, push_decimal, same_text, text_order};

verus! {

/// The parts joined, with `sep` between two neighbours.
pub open spec fn joined(parts: Seq<Seq<char>>, sep: Seq<char>) -> Seq<char>
    decreases parts.len(),
{
    if parts.len() == 0 {
        Seq::empty()
    } else if parts.len() == 1 {
        parts[0]
    } else {
        joined(parts.drop_last(), sep) + sep + parts.last()
    }
}

/// Joins the parts with `sep` between two neighbours.
pub fn join_texts(parts: &Vec<String>, sep: &str) -> (r: String)
    ensures
        r@ == joined(texts_of(parts@), sep@),
{
    let mut r = String::new();
    let mut i: usize = 0;
    while i < parts.len()
        invariant
            i <= parts@.len(),
            r@ == joined(texts_of(parts@).take(i as int), sep@),
        decreases parts@.len() - i,
    {
        let ghost before = r@;
        if i > 0 {
            r.append(sep);
        }
        r.append(parts[i].as_str());
        proof {
            let t = texts_of(parts@);
            assert(t.take(i + 1).drop_last() =~= t.take(i as int));
            if i == 0 {
                assert(before =~= Seq::<char>::empty());
                assert(r@ =~= t.take(1)[0]);
            }
        }
        i = i + 1;
    }
    assert(texts_of(parts@).take(parts@.len() as int) =~= texts_of(parts@));
    r
}

/// Arranges `items` in the stable lexicographic order of their keys.
pub fn sort_texts_by(items: &Vec<String>, keys: &Vec<String>) -> (r: Vec<String>)
    requires
        items@.len() == keys@.len(),
    ensures
        texts_of(r@) == stable_sorted(texts_of(items@), texts_of(keys@), text_order()),
{
    let n = items.len();
    let ranks = text_ranks(keys);
    proof {
        lemma_text_order_total();
    }
    let order = order_from_ranks::<Seq<char>>(&ranks, Ghost(texts_of(keys@)), Ghost(text_order()));
    let ghost s = texts_of(items@);
    let ghost ks = texts_of(keys@);
    let mut r: Vec<String> = Vec::new();
    let mut k: usize = 0;
    while k < n
        invariant
            k <= n,
            n == items@.len(),
            n == keys@.len(),
            s == texts_of(items@),
            ks == texts_of(keys@),
            strict_total(text_order()),
            order@.len() == n,
            forall|q: int| 0 <= q < n ==> #[trigger] order@[q] < n && rank(ks, text_order(), order@[q] as int) == q,
            r@.len() == k,
            forall|j: int| 0 <= j < k ==> (#[trigger] r@[j])@ == stable_sorted(s, ks, text_order())[j],
        decreases n - k,
    {
        let idx = order[k];
        proof {
            lemma_sorted_at(s, ks, text_order(), idx as int);
        }
        r.push(items[idx].clone());
        k = k + 1;
    }
    assert(texts_of(r@) =~= stable_sorted(s, ks, text_order()));
    r
}

/// The part of a parameter in a signature: its name, a colon and its value.
pub open spec fn param_part(p: ParamEntry) -> Seq<char> {
    p.name@ + seq![':'] + p.value@
}

/// The parameters' parts in the stable order of the parameter names, joined
/// by "|".
pub open spec fn parameters_signature_spec(ps: Seq<ParamEntry>) -> Seq<char> {
    joined(
        stable_sorted(
            ps.map_values(|p: ParamEntry| param_part(p)),
            ps.map_values(|p: ParamEntry| p.name@),
            text_order(),
        ),
        seq!['|'],
    )
}

/// The counts of a candidate's conditions, indicators, nested indicators and
/// timeframes, each after its label, in the sorted order of the labels.
pub open spec fn candidate_signature_spec(c: StrategyCandidateView) -> Seq<char> {
    "conditions:"@ + decimal(c.conditions.len()) + "|indicators:"@ + decimal(c.indicators.len())
        + "|nested:"@ + decimal(c.nested_indicators.len()) + "|timeframes:"@ + decimal(c.timeframes.len())
}

/// The parts of an evaluated strategy: the counts of its candidate's
/// indicators, nested indicators and conditions, when it has a candidate,
/// and the part of each parameter.
pub open spec fn strategy_parts(st: EvaluatedStrategyView) -> Seq<Seq<char>> {
    let head = match st.candidate {
        Some(c) => seq![
            "indicators:"@ + decimal(c.indicators.len()),
            "nested:"@ + decimal(c.nested_indicators.len()),
            "conditions:"@ + decimal(c.conditions.len()),
        ],
        None => Seq::empty(),
    };
    head + st.parameters.map_values(|p: ParamEntry| param_part(p))
}

/// The signature of an evaluated strategy: its parts sorted and joined by
/// "|".
pub open spec fn strategy_signature(st: EvaluatedStrategyView) -> Seq<char> {
    let parts = strategy_parts(st);
    joined(stable_sorted(parts, parts, text_order()), seq!['|'])
}

fn param_parts(ps: &Vec<ParamEntry>) -> (r: Vec<String>)
    ensures
        texts_of(r@) == ps@.map_values(|p: ParamEntry| param_part(p)),
{
    let mut r: Vec<String> = Vec::new();
    let mut i: usize = 0;
    while i < ps.len()
        invariant
            i <= ps@.len(),
            r@.len() == i,
            forall|j: int| 0 <= j < i ==> (#[trigger] r@[j])@ == param_part(ps@[j]),
        decreases ps@.len() - i,
    {
        let mut part = ps[i].name.clone();
        proof {
            reveal_strlit(":");
        }
        part.append(":");
        part.append(ps[i].value.as_str());
        assert(part@ =~= param_part(ps@[i as int]));
        r.push(part);
        i = i + 1;
    }
    assert(texts_of(r@) =~= ps@.map_values(|p: ParamEntry| param_part(p)));
    r
}

fn labelled_count(label: &str, n: usize) -> (r: String)
    ensures
        r@ == label@ + decimal(n as nat),
{
    let mut s = owned(label);
    push_decimal(&mut s, n as u64);
    s
}

/// The signature of an evaluated strategy.
pub fn create_signature(strategy: &EvaluatedStrategy) -> (r: String)
    ensures
        r@ == strategy_signature(strategy@),
{
    let mut parts: Vec<String> = Vec::new();
    match &strategy.candidate {
        Some(c) => {
            parts.push(labelled_count("indicators:", c.indicators.len()));
            parts.push(labelled_count("nested:", c.nested_indicators.len()));
            parts.push(labelled_count("conditions:", c.conditions.len()));
        },
        None => {},
    }
    let ghost head = texts_of(parts@);
    let mut tail = param_parts(&strategy.parameters);
    parts.append(&mut tail);
    assert(texts_of(parts@) =~= strategy_parts(strategy@));
    let sorted = sort_texts_by(&parts, &parts);
    proof {
        reveal_strlit("|");
    }
    let r = join_texts(&sorted, "|");
    assert("|"@ =~= seq!['|']);
    r
}

/// The signatures of the candidate and of the parameters of a strategy, by
/// which backtest results are cached.
#[derive(Debug, PartialEq, Eq, Hash)]
pub struct CacheKey {
    pub candidate_signature: String,
    pub parameters_signature: String,
}

impl CacheKey {
    pub fn from_candidate_and_params(candidate: &StrategyCandidate, parameters: &Vec<ParamEntry>) -> (r: Self)
        ensures
            r.candidate_signature@ == candidate_signature_spec(candidate@),
            r.parameters_signature@ == parameters_signature_spec(parameters@),
    {
        CacheKey {
            candidate_signature: Self::candidate_signature(candidate),
            parameters_signature: Self::parameters_signature(parameters),
        }
    }

    /// The counts of the candidate's conditions, indicators, nested
    /// indicators and timeframes, each after its label, sorted and joined
    /// by "|".
    pub fn candidate_signature(candidate: &StrategyCandidate) -> (r: String)
        ensures
            r@ == candidate_signature_spec(candidate@),
    {
        let mut s = labelled_count("conditions:", candidate.conditions.len());
        s.append("|");
        s.append(labelled_count("indicators:", candidate.indicators.len()).as_str());
        s.append("|");
        s.append(labelled_count("nested:", candidate.nested_indicators.len()).as_str());
        s.append("|");
        s.append(labelled_count("timeframes:", candidate.timeframes.len()).as_str());
        proof {
            reveal_strlit("|");
            reveal_strlit("|indicators:");
            reveal_strlit("|nested:");
            reveal_strlit("|timeframes:");
            reveal_strlit("indicators:");
            reveal_strlit("nested:");
            reveal_strlit("timeframes:");
        }
        assert(s@ =~= candidate_signature_spec(candidate@));
        s
    }

    /// The parameters as "name:value", in the order of their names, joined
    /// by "|".
    pub fn parameters_signature(parameters: &Vec<ParamEntry>) -> (r: String)
        ensures
            r@ == parameters_signature_spec(parameters@),
    {
        let parts = param_parts(parameters);
        let mut names: Vec<String> = Vec::new();
        let mut i: usize = 0;
        while i < parameters.len()
            invariant
                i <= parameters@.len(),
                names@.len() == i,
                forall|j: int| 0 <= j < i ==> (#[trigger] names@[j])@ == parameters@[j].name@,
            decreases parameters@.len() - i,
        {
            names.push(parameters[i].name.clone());
            i = i + 1;
        }
        assert(texts_of(names@) =~= parameters@.map_values(|p: ParamEntry| p.name@));
        assert(texts_of(parts@).len() == parts@.len());
        let sorted = sort_texts_by(&parts, &names);
        proof {
            reveal_strlit("|");
        }
        let r = join_texts(&sorted, "|");
        assert("|"@ =~= seq!['|']);
        r
    }
}

/// The sorted list without repeats: an item equal to the one before it is
/// dropped.
pub open spec fn dedup_sorted(s: Seq<Seq<char>>) -> Seq<Seq<char>>
    decreases s.len(),
{
    if s.len() == 0 {
        s
    } else {
        let prev = dedup_sorted(s.drop_last());
        if s.len() >= 2 && s[s.len() - 2] == s.last() {
            prev
        } else {
            prev.push(s.last())
        }
    }
}

/// The distinct texts in lexicographic order, as an ordered set holds them.
pub open spec fn sorted_set(items: Seq<Seq<char>>) -> Seq<Seq<char>> {
    dedup_sorted(stable_sorted(items, items, text_order()))
}

/// Each item is strictly below the items after it.
pub open spec fn strictly_ascending(d: Seq<Seq<char>>, less: spec_fn(Seq<char>, Seq<char>) -> bool) -> bool {
    forall|i: int, j: int| 0 <= i < j < d.len() ==> less(#[trigger] d[i], #[trigger] d[j])
}

/// No item is below an item before it.
pub open spec fn ascending(s: Seq<Seq<char>>, less: spec_fn(Seq<char>, Seq<char>) -> bool) -> bool {
    forall|i: int, j: int| 0 <= i < j < s.len() ==> !less(#[trigger] s[j], #[trigger] s[i])
}

/// The stable order holds the items it orders, and no others.
proof fn lemma_stable_sorted_items(items: Seq<Seq<char>>)
    ensures
        forall|x: Seq<char>| #[trigger] stable_sorted(items, items, text_order()).contains(x) <==> items.contains(x),
        ascending(stable_sorted(items, items, text_order()), text_order()),
{
    lemma_text_order_total();
    let s = stable_sorted(items, items, text_order());
    assert forall|x: Seq<char>| #[trigger] s.contains(x) <==> items.contains(x) by {
        if s.contains(x) {
            let k = choose|k: int| 0 <= k < s.len() && s[k] == x;
            lemma_rank_onto(items, text_order(), k);
        }
        if items.contains(x) {
            let i = choose|i: int| 0 <= i < items.len() && items[i] == x;
            lemma_sorted_at(items, items, text_order(), i);
            assert(s[rank(items, text_order(), i) as int] == x);
        }
    }
    assert forall|i: int, j: int| 0 <= i < j < s.len() implies !text_order()(#[trigger] s[j], #[trigger] s[i]) by {
        law_stable_sorted_ordered(items, text_order(), i, j);
    }
}

/// Removing repeats from an ordered sequence keeps its items, leaves them
/// strictly ascending, and keeps the last one last.
proof fn lemma_dedup_sorted(s: Seq<Seq<char>>, less: spec_fn(Seq<char>, Seq<char>) -> bool)
    requires
        strict_total(less),
        ascending(s, less),
    ensures
        forall|x: Seq<char>| #[trigger] dedup_sorted(s).contains(x) <==> s.contains(x),
        strictly_ascending(dedup_sorted(s), less),
        s.len() > 0 ==> dedup_sorted(s).len() > 0 && dedup_sorted(s).last() == s.last(),
    decreases s.len(),
{
    if s.len() > 0 {
        let t = s.drop_last();
        assert(ascending(t, less));
        lemma_dedup_sorted(t, less);
        let prev = dedup_sorted(t);
        let n = s.len() as int;
        if n >= 2 && s[n - 2] == s.last() {
            assert(t.contains(s.last()) && t.last() == s.last());
            assert forall|x: Seq<char>| #[trigger] dedup_sorted(s).contains(x) <==> s.contains(x) by {
                if s.contains(x) {
                    let k = choose|k: int| 0 <= k < s.len() && s[k] == x;
                    assert(k < n - 1 ==> t[k] == x);
                }
                if t.contains(x) {
                    let k = choose|k: int| 0 <= k < t.len() && t[k] == x;
                    assert(s[k] == x);
                }
            }
        } else {
            let d = prev.push(s.last());
            assert(dedup_sorted(s) == d);
            if n >= 2 {
                assert(!less(s[n - 1], s[n - 2]));
                assert(less(s[n - 2], s[n - 1]));
                assert(prev.last() == s[n - 2]);
            }
            assert forall|i: int, j: int| 0 <= i < j < d.len() implies less(#[trigger] d[i], #[trigger] d[j]) by {
                if j == d.len() - 1 {
                    if i < prev.len() - 1 {
                        assert(less(prev[i], prev[prev.len() - 1]));
                        assert(less(prev[prev.len() - 1], s.last()));
                    }
                } else {
                    assert(d[i] == prev[i] && d[j] == prev[j]);
                }
            }
            assert forall|x: Seq<char>| #[trigger] d.contains(x) <==> s.contains(x) by {
                if s.contains(x) {
                    let k = choose|k: int| 0 <= k < s.len() && s[k] == x;
                    if k < n - 1 {
                        assert(t[k] == x);
                        assert(prev.contains(x));
                        let q = choose|q: int| 0 <= q < prev.len() && prev[q] == x;
                        assert(d[q] == x);
                    } else {
                        assert(d[d.len() - 1] == x);
                    }
                }
                if d.contains(x) {
                    let q = choose|q: int| 0 <= q < d.len() && d[q] == x;
                    if q < prev.len() {
                        assert(prev[q] == x);
                        assert(prev.contains(x));
                        let k = choose|k: int| 0 <= k < t.len() && t[k] == x;
                        assert(s[k] == x);
                    } else {
                        assert(s[n - 1] == x);
                    }
                }
            }
        }
    }
}

/// Two strictly ascending sequences with the same items are the same.
proof fn lemma_ascending_unique(a: Seq<Seq<char>>, b: Seq<Seq<char>>, less: spec_fn(Seq<char>, Seq<char>) -> bool)
    requires
        strict_total(less),
        strictly_ascending(a, less),
        strictly_ascending(b, less),
        forall|x: Seq<char>| #![trigger a.contains(x)] #![trigger b.contains(x)] a.contains(x) <==> b.contains(x),
    ensures
        a == b,
    decreases a.len(),
{
    if a.len() == 0 {
        if b.len() > 0 {
            assert(b.contains(b[0]));
        }
        assert(a =~= b);
    } else {
        assert(a.contains(a.last()));
        assert(b.len() > 0);
        let ma = a.last();
        let mb = b.last();
        assert(b.contains(mb));
        let i = choose|i: int| 0 <= i < a.len() && a[i] == mb;
        let j = choose|j: int| 0 <= j < b.len() && b[j] == ma;
        if ma != mb {
            assert(a.contains(mb));
            assert(b.contains(ma));
            assert(i < a.len() - 1 ==> less(a[i], a[a.len() - 1]));
            assert(j < b.len() - 1 ==> less(b[j], b[b.len() - 1]));
            assert(less(mb, ma));
            assert(less(ma, mb));
            assert(less(ma, ma));
        }
        let a2 = a.drop_last();
        let b2 = b.drop_last();
        assert(strictly_ascending(a2, less));
        assert(strictly_ascending(b2, less));
        assert forall|x: Seq<char>| #![trigger a2.contains(x)] #![trigger b2.contains(x)] a2.contains(x) <==> b2.contains(x) by {
            if a2.contains(x) {
                let k = choose|k: int| 0 <= k < a2.len() && a2[k] == x;
                assert(a[k] == x && less(a[k], ma));
                assert(a.contains(x));
                let q = choose|q: int| 0 <= q < b.len() && b[q] == x;
                assert(q != b.len() - 1);
                assert(b2[q] == x);
            }
            if b2.contains(x) {
                let k = choose|k: int| 0 <= k < b2.len() && b2[k] == x;
                assert(b[k] == x && less(b[k], mb));
                assert(b.contains(x));
                let q = choose|q: int| 0 <= q < a.len() && a[q] == x;
                assert(q != a.len() - 1);
                assert(a2[q] == x);
            }
        }
        lemma_ascending_unique(a2, b2, less);
        assert(a =~= a2.push(ma));
        assert(b =~= b2.push(mb));
    }
}

/// Texts holding the same items, in whatever order and with whatever
/// repeats, give the same ordered set.
pub proof fn law_sorted_set_order_free(a: Seq<Seq<char>>, b: Seq<Seq<char>>)
    requires
        a.to_set() == b.to_set(),
    ensures
        sorted_set(a) == sorted_set(b),
        set_rendering(a) == set_rendering(b),
{
    lemma_text_order_total();
    lemma_stable_sorted_items(a);
    lemma_stable_sorted_items(b);
    let sa = stable_sorted(a, a, text_order());
    let sb = stable_sorted(b, b, text_order());
    lemma_dedup_sorted(sa, text_order());
    lemma_dedup_sorted(sb, text_order());
    assert forall|x: Seq<char>| #![trigger dedup_sorted(sa).contains(x)] #![trigger dedup_sorted(sb).contains(x)]
        dedup_sorted(sa).contains(x) <==> dedup_sorted(sb).contains(x) by {
        assert(a.to_set().contains(x) == b.to_set().contains(x));
        assert(a.to_set().contains(x) == a.contains(x));
        assert(b.to_set().contains(x) == b.contains(x));
        assert(sa.contains(x) <==> a.contains(x));
        assert(sb.contains(x) <==> b.contains(x));
        assert(dedup_sorted(sa).contains(x) <==> sa.contains(x));
        assert(dedup_sorted(sb).contains(x) <==> sb.contains(x));
    }
    lemma_ascending_unique(dedup_sorted(sa), dedup_sorted(sb), text_order());
}

/// How a set of texts is rendered for debugging: each distinct text,
/// rendered for debugging, in lexicographic order, separated by ", ", in
/// braces.
pub open spec fn set_rendering(items: Seq<Seq<char>>) -> Seq<char> {
    seq!['{'] + joined(sorted_set(items).map_values(|t: Seq<char>| debug_text(t)), seq![',', ' ']) + seq!['}']
}

/// Renders a set of texts as `set_rendering` says.
pub fn render_set(items: &Vec<String>) -> (r: String)
    ensures
        r@ == set_rendering(texts_of(items@)),
{
    let sorted = sort_texts_by(items, items);
    let ghost ss = texts_of(sorted@);
    let mut distinct: Vec<String> = Vec::new();
    let mut k: usize = 0;
    while k < sorted.len()
        invariant
            k <= sorted@.len(),
            ss == texts_of(sorted@),
            texts_of(distinct@) == dedup_sorted(ss.take(k as int)),
        decreases sorted@.len() - k,
    {
        proof {
            assert(ss.take(k + 1).drop_last() =~= ss.take(k as int));
        }
        if k == 0 || !same_text(sorted[k].as_str(), sorted[k - 1].as_str()) {
            let ghost before = texts_of(distinct@);
            distinct.push(sorted[k].clone());
            assert(texts_of(distinct@) =~= before.push(ss[k as int]));
        }
        k = k + 1;
    }
    assert(ss.take(sorted@.len() as int) =~= ss);
    let ghost set = texts_of(distinct@);
    let mut rendered: Vec<String> = Vec::new();
    let mut i: usize = 0;
    while i < distinct.len()
        invariant
            i <= distinct@.len(),
            set == texts_of(distinct@),
            rendered@.len() == i,
            forall|j: int| 0 <= j < i ==> (#[trigger] rendered@[j])@ == debug_text(set[j]),
        decreases distinct@.len() - i,
    {
        rendered.push(debug_quoted(distinct[i].as_str()));
        i = i + 1;
    }
    assert(texts_of(rendered@) =~= set.map_values(|t: Seq<char>| debug_text(t)));
    proof {
        reveal_strlit("{");
        reveal_strlit("}");
        reveal_strlit(", ");
    }
    let mut r = owned("{");
    let inner = join_texts(&rendered, ", ");
    assert(", "@ =~= seq![',', ' ']);
    r.append(inner.as_str());
    r.append("}");
    assert(r@ =~= set_rendering(texts_of(items@)));
    r
}


/// The durations, in minutes, of timeframes, as order keys.
pub open spec fn duration_keys(tfs: Seq<TimeFrame>) -> Seq<i64> {
    tfs.map_values(|t: TimeFrame| t.minutes as i64)
}

/// The timeframes a strategy may be evaluated on: the base timeframe, then
/// the higher ones from shortest to longest (those of equal length in their
/// order).
pub open spec fn evaluation_timeframes(base: TimeFrame, higher: Seq<TimeFrame>) -> Seq<TimeFrame> {
    seq![base] + stable_sorted(higher, duration_keys(higher), key_less(false))
}

/// The base timeframe, then the higher ones sorted by duration, stably.
pub fn available_timeframes(base_timeframe: &TimeFrame, available_higher_timeframes: &Vec<TimeFrame>) -> (r: Vec<TimeFrame>)
    ensures
        r@ == evaluation_timeframes(*base_timeframe, available_higher_timeframes@),
{
    let higher = available_higher_timeframes;
    let n = higher.len();
    let mut keys: Vec<i64> = Vec::new();
    let mut i: usize = 0;
    while i < n
        invariant
            i <= n,
            n == higher@.len(),
            keys@.len() == i,
            forall|j: int| 0 <= j < i ==> #[trigger] keys@[j] == higher@[j].minutes as i64,
        decreases n - i,
    {
        keys.push(higher[i].duration() as i64);
        i = i + 1;
    }
    assert(keys@ =~= duration_keys(higher@));
    let ranks = key_ranks(&keys, false);
    proof {
        lemma_key_less_total(false);
    }
    let order = order_from_ranks::<i64>(&ranks, Ghost(keys@), Ghost(key_less(false)));
    let mut r: Vec<TimeFrame> = Vec::new();
    r.push(*base_timeframe);
    let mut k: usize = 0;
    while k < n
        invariant
            k <= n,
            n == higher@.len(),
            keys@ == duration_keys(higher@),
            strict_total(key_less(false)),
            order@.len() == n,
            forall|q: int| 0 <= q < n ==> #[trigger] order@[q] < n && rank(keys@, key_less(false), order@[q] as int) == q,
            r@.len() == k + 1,
            r@[0] == *base_timeframe,
            forall|j: int| 0 <= j < k ==> #[trigger] r@[j + 1] == stable_sorted(higher@, keys@, key_less(false))[j],
        decreases n - k,
    {
        let idx = order[k];
        proof {
            lemma_sorted_at(higher@, keys@, key_less(false), idx as int);
        }
        r.push(higher[idx]);
        k = k + 1;
    }
    let ghost ev = evaluation_timeframes(*base_timeframe, higher@);
    assert forall|j: int| 0 <= j < r@.len() implies r@[j] == ev[j] by {
        if j > 0 {
            assert(r@[(j - 1) + 1] == stable_sorted(higher@, keys@, key_less(false))[j - 1]);
        }
    }
    assert(r@ =~= ev);
    r
}


/// The signature of parameters of distinct names does not depend on their
/// order: the same parameters in any other order give the same signature.
pub proof fn law_parameters_signature_order_free(ps: Seq<ParamEntry>, perm: Seq<int>)
    requires
        distinct_keys(ps.map_values(|p: ParamEntry| p.name@)),
        is_bijection(perm, ps.len()),
    ensures
        parameters_signature_spec(rearranged(ps, perm)) == parameters_signature_spec(ps),
{
    let parts = ps.map_values(|p: ParamEntry| param_part(p));
    let names = ps.map_values(|p: ParamEntry| p.name@);
    let qs = rearranged(ps, perm);
    assert(qs.map_values(|p: ParamEntry| param_part(p)) =~= rearranged(parts, perm));
    assert(qs.map_values(|p: ParamEntry| p.name@) =~= rearranged(names, perm));
    lemma_text_order_total();
    lemma_stable_sorted_rearranged(parts, names, text_order(), perm);
}

} // verus!
