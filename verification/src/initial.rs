//! Helpers of the initial population: turning built elements into a
//! candidate, finding the indicator a condition reads, reading indicator
//! aliases back out of condition identifiers, and deciding where a
//! volatility indicator is bound to the close price.

use vstd::prelude::*;
use crate::model::{ConditionInfo, StopHandlerInfo, StopHandlerView, StrategyCandidate, StrategyCandidateView};
use crate::rules::{take_profit_text, CandidateElements};
use crate::selection::{find_indicator, find_nested, first_indicator, first_nested};
use crate::genetic::lemma_filter_step;
use crate::config::{CandidateBuilderConfig, IndicatorParameterRule, ParameterConstraint};
use crate::model::{close_text, IndicatorInfo};
use crate::genetic::{contains_text, has_text};
use crate::ranking::texts_of;
use crate::text::{chars_of, find, find_spec, is_digit, starts_with, starts_with_spec, substring};

pub use crate::genetic::get_strategy_signature;

verus! {

/// A handler is a take-profit handler.
pub open spec fn is_take(h: StopHandlerView) -> bool {
    h.stop_type@ == take_profit_text()
}

fn split_into(
    v: &Vec<StopHandlerInfo>,
    stops: &mut Vec<StopHandlerInfo>,
    takes: &mut Vec<StopHandlerInfo>,
)
    ensures
        final(stops)@.map_values(|h: StopHandlerInfo| h@) == old(stops)@.map_values(|h: StopHandlerInfo| h@)
            + v@.map_values(|h: StopHandlerInfo| h@).filter(|h: StopHandlerView| !is_take(h)),
        final(takes)@.map_values(|h: StopHandlerInfo| h@) == old(takes)@.map_values(|h: StopHandlerInfo| h@)
            + v@.map_values(|h: StopHandlerInfo| h@).filter(|h: StopHandlerView| is_take(h)),
{
    let ghost all = v@.map_values(|h: StopHandlerInfo| h@);
    let ghost s0 = stops@.map_values(|h: StopHandlerInfo| h@);
    let ghost t0 = takes@.map_values(|h: StopHandlerInfo| h@);
    let ghost ps = |h: StopHandlerView| !is_take(h);
    let ghost pt = |h: StopHandlerView| is_take(h);
    let tp: Vec<char> = vec!['t', 'a', 'k', 'e', '_', 'p', 'r', 'o', 'f', 'i', 't'];
    assert(tp@ =~= take_profit_text());
    let mut i: usize = 0;
    while i < v.len()
        invariant
            i <= v@.len(),
            all == v@.map_values(|h: StopHandlerInfo| h@),
            tp@ == take_profit_text(),
            ps == (|h: StopHandlerView| !is_take(h)),
            pt == (|h: StopHandlerView| is_take(h)),
            stops@.map_values(|h: StopHandlerInfo| h@) == s0 + all.take(i as int).filter(ps),
            takes@.map_values(|h: StopHandlerInfo| h@) == t0 + all.take(i as int).filter(pt),
        decreases v@.len() - i,
    {
        proof {
            lemma_filter_step(all, ps, i as int);
            lemma_filter_step(all, pt, i as int);
        }
        let h = v[i].clone();
        if crate::text::text_is(v[i].stop_type.as_str(), &tp) {
            let ghost before = takes@;
            takes.push(h);
            assert(takes@.map_values(|h: StopHandlerInfo| h@) =~= before.map_values(|h: StopHandlerInfo| h@).push(
                all[i as int],
            ));
            assert(t0 + all.take(i + 1).filter(pt) =~= (t0 + all.take(i as int).filter(pt)).push(all[i as int]));
        } else {
            let ghost before = stops@;
            stops.push(h);
            assert(stops@.map_values(|h: StopHandlerInfo| h@) =~= before.map_values(|h: StopHandlerInfo| h@).push(
                all[i as int],
            ));
            assert(s0 + all.take(i + 1).filter(ps) =~= (s0 + all.take(i as int).filter(ps)).push(all[i as int]));
        }
        i = i + 1;
    }
    assert(all.take(v@.len() as int) =~= all);
}

/// The candidate made of built elements: its lists as they are, with the
/// stop and take handlers together split again by their stop type, the
/// take-profit handlers to the take handlers and all others to the stop
/// handlers, each keeping its order.
pub fn convert_candidate_elements_to_strategy_candidate(elements: CandidateElements) -> (r: Option<StrategyCandidate>)
    ensures
        r matches Some(c) && c@ == (StrategyCandidateView {
            indicators: elements.indicators@,
            nested_indicators: elements.nested_indicators@,
            conditions: elements.entry_conditions@,
            exit_conditions: elements.exit_conditions@,
            stop_handlers: (elements.stop_handlers@ + elements.take_handlers@).map_values(|h: StopHandlerInfo| h@).filter(
                |h: StopHandlerView| !is_take(h),
            ),
            take_handlers: (elements.stop_handlers@ + elements.take_handlers@).map_values(|h: StopHandlerInfo| h@).filter(
                |h: StopHandlerView| is_take(h),
            ),
            timeframes: elements.timeframes@,
        }),
{
    let mut stop_handlers: Vec<StopHandlerInfo> = Vec::new();
    let mut take_handlers: Vec<StopHandlerInfo> = Vec::new();
    split_into(&elements.stop_handlers, &mut stop_handlers, &mut take_handlers);
    split_into(&elements.take_handlers, &mut stop_handlers, &mut take_handlers);
    proof {
        let a = elements.stop_handlers@.map_values(|h: StopHandlerInfo| h@);
        let b = elements.take_handlers@.map_values(|h: StopHandlerInfo| h@);
        assert((elements.stop_handlers@ + elements.take_handlers@).map_values(|h: StopHandlerInfo| h@) =~= a + b);
        Seq::filter_distributes_over_add(a, b, |h: StopHandlerView| !is_take(h));
        Seq::filter_distributes_over_add(a, b, |h: StopHandlerView| is_take(h));
        assert(Seq::<StopHandlerInfo>::empty().map_values(|h: StopHandlerInfo| h@) =~= Seq::<StopHandlerView>::empty());
    }
    Some(
        StrategyCandidate {
            indicators: elements.indicators,
            nested_indicators: elements.nested_indicators,
            conditions: elements.entry_conditions,
            exit_conditions: elements.exit_conditions,
            stop_handlers,
            take_handlers,
            timeframes: elements.timeframes,
        },
    )
}

/// The name of the indicator that a condition reads first: the first
/// indicator with its primary alias, else the first such nested indicator.
pub open spec fn primary_indicator_name(c: StrategyCandidateView, cond: ConditionInfo) -> Option<Seq<char>> {
    let alias = cond.primary_indicator_alias@;
    match first_indicator(c.indicators, alias) {
        Some(i) => Some(c.indicators[i].name@),
        None => match first_nested(c.nested_indicators, alias) {
            Some(j) => Some(c.nested_indicators[j].indicator.name@),
            None => None,
        },
    }
}

/// The name of the indicator behind the condition's primary alias, if the
/// candidate has it.
pub fn extract_indicator_name_from_condition(candidate: &StrategyCandidate, condition: &ConditionInfo) -> (r: Option<String>)
    ensures
        match r {
            Some(n) => primary_indicator_name(candidate@, *condition) == Some(n@),
            None => primary_indicator_name(candidate@, *condition) is None,
        },
{
    let alias = &condition.primary_indicator_alias;
    match find_indicator(candidate.indicators.as_slice(), alias) {
        Some(i) => Some(candidate.indicators[i].name.clone()),
        None => match find_nested(candidate.nested_indicators.as_slice(), alias) {
            Some(j) => Some(candidate.nested_indicators[j].indicator.name.clone()),
            None => None,
        },
    }
}


/// The pieces of `s` between the occurrences of `c`, `cur` standing before
/// the first piece.
pub open spec fn split_from(s: Seq<char>, c: char, cur: Seq<char>) -> Seq<Seq<char>>
    decreases s.len(),
{
    if s.len() == 0 {
        seq![cur]
    } else if s[0] == c {
        seq![cur] + split_from(s.skip(1), c, Seq::empty())
    } else {
        split_from(s.skip(1), c, cur.push(s[0]))
    }
}

/// The pieces of `s` between the occurrences of `c`, as `str::split` gives
/// them: one more than there are occurrences, empty ones included.
pub open spec fn split_on(s: Seq<char>, c: char) -> Seq<Seq<char>> {
    split_from(s, c, Seq::empty())
}

/// The value of a decimal digit.
pub open spec fn digit_of(c: char) -> nat {
    if c == '1' {
        1
    } else if c == '2' {
        2
    } else if c == '3' {
        3
    } else if c == '4' {
        4
    } else if c == '5' {
        5
    } else if c == '6' {
        6
    } else if c == '7' {
        7
    } else if c == '8' {
        8
    } else if c == '9' {
        9
    } else {
        0
    }
}

/// The value of a string of decimal digits.
pub open spec fn digits_value(d: Seq<char>) -> nat
    decreases d.len(),
{
    if d.len() == 0 {
        0
    } else {
        digits_value(d.drop_last()) * 10 + digit_of(d.last())
    }
}

/// `t` without a leading `+`.
pub open spec fn unsigned_digits(t: Seq<char>) -> Seq<char> {
    if t.len() > 0 && t[0] == '+' {
        t.skip(1)
    } else {
        t
    }
}

/// `t` reads as a `u32`, as `str::parse::<u32>` reads it: an optional `+`,
/// then at least one decimal digit, of a value that fits.
pub open spec fn reads_as_u32(t: Seq<char>) -> bool {
    let d = unsigned_digits(t);
    &&& d.len() > 0
    &&& forall|i: int| 0 <= i < d.len() ==> is_digit(#[trigger] d[i])
    &&& digits_value(d) <= u32::MAX
}

/// The text before the first "_tf", or all of it.
pub open spec fn before_tf(s: Seq<char>) -> Seq<char> {
    match find_spec(s, "_tf"@) {
        Some(i) => s.take(i),
        None => s,
    }
}

/// The aliases named by the rest of an entry or exit identifier: the first
/// two pieces when there are at least three and the last reads as a number,
/// else the first piece.
pub open spec fn side_aliases(rest: Seq<char>) -> Seq<Seq<char>> {
    let parts = split_on(rest, '_');
    if parts.len() >= 3 && reads_as_u32(parts.last()) {
        seq![parts[0], parts[1]]
    } else {
        seq![parts[0]]
    }
}

/// The indicator aliases that a condition identifier names: after
/// "ind_ind_", the first two pieces before "_tf"; after "entry_" or "exit_",
/// as `side_aliases` says; after "ind_price_" or "ind_const_", the first
/// piece before "_tf"; none otherwise.
pub open spec fn aliases_in_condition_id(id: Seq<char>) -> Seq<Seq<char>> {
    if starts_with_spec(id, "ind_ind_"@) {
        let parts = split_on(before_tf(id.skip(8)), '_');
        if parts.len() >= 2 {
            seq![parts[0], parts[1]]
        } else {
            Seq::empty()
        }
    } else if starts_with_spec(id, "entry_"@) {
        side_aliases(id.skip(6))
    } else if starts_with_spec(id, "exit_"@) {
        side_aliases(id.skip(5))
    } else if starts_with_spec(id, "ind_price_"@) || starts_with_spec(id, "ind_const_"@) {
        seq![split_on(before_tf(id.skip(10)), '_')[0]]
    } else {
        Seq::empty()
    }
}

proof fn lemma_split_from_len(s: Seq<char>, c: char, cur: Seq<char>)
    ensures
        split_from(s, c, cur).len() >= 1,
    decreases s.len(),
{
    if s.len() > 0 {
        if s[0] == c {
            lemma_split_from_len(s.skip(1), c, Seq::empty());
        } else {
            lemma_split_from_len(s.skip(1), c, cur.push(s[0]));
        }
    }
}

/// The pieces of `text` between `from` and `to`, split at `c`.
fn split_pieces(text: &str, from: usize, to: usize, c: char) -> (r: Vec<String>)
    requires
        from <= to <= text@.len(),
    ensures
        texts_of(r@) == split_on(text@.subrange(from as int, to as int), c),
        r@.len() >= 1,
{
    let chars = chars_of(text);
    let ghost seg = text@.subrange(from as int, to as int);
    let mut done: Vec<String> = Vec::new();
    let mut start: usize = from;
    let mut i: usize = from;
    assert(seg.skip(0) =~= seg);
    assert(text@.subrange(from as int, from as int) =~= Seq::<char>::empty());
    assert(texts_of(done@) + split_on(seg, c) =~= split_on(seg, c));
    while i < to
        invariant
            from <= start <= i <= to,
            to <= text@.len(),
            chars@ == text@,
            seg == text@.subrange(from as int, to as int),
            texts_of(done@) + split_from(seg.skip(i - from), c, text@.subrange(start as int, i as int)) == split_on(
                seg,
                c,
            ),
        decreases to - i,
    {
        let ghost rest = seg.skip(i - from);
        assert(rest[0] == text@[i as int]);
        assert(rest.skip(1) =~= seg.skip(i + 1 - from));
        if chars[i] == c {
            let piece = substring(text, start, i);
            let ghost before = texts_of(done@);
            done.push(piece);
            assert(texts_of(done@) =~= before.push(text@.subrange(start as int, i as int)));
            assert(text@.subrange((i + 1) as int, (i + 1) as int) =~= Seq::<char>::empty());
            assert(texts_of(done@) + split_from(seg.skip(i + 1 - from), c, Seq::empty()) =~= before + split_from(
                rest,
                c,
                text@.subrange(start as int, i as int),
            ));
            start = i + 1;
        } else {
            assert(text@.subrange(start as int, i as int).push(text@[i as int]) =~= text@.subrange(
                start as int,
                (i + 1) as int,
            ));
        }
        i = i + 1;
    }
    let last = substring(text, start, to);
    let ghost before = texts_of(done@);
    assert(seg.skip(to - from) =~= Seq::<char>::empty());
    done.push(last);
    assert(texts_of(done@) =~= before + seq![text@.subrange(start as int, to as int)]);
    done
}

fn digit_value(c: char) -> (r: Option<u64>)
    ensures
        r == if is_digit(c) {
            Some(digit_of(c) as u64)
        } else {
            None::<u64>
        },
{
    if c == '0' {
        Some(0)
    } else if c == '1' {
        Some(1)
    } else if c == '2' {
        Some(2)
    } else if c == '3' {
        Some(3)
    } else if c == '4' {
        Some(4)
    } else if c == '5' {
        Some(5)
    } else if c == '6' {
        Some(6)
    } else if c == '7' {
        Some(7)
    } else if c == '8' {
        Some(8)
    } else if c == '9' {
        Some(9)
    } else {
        None
    }
}

proof fn lemma_digits_value_prefix(d: Seq<char>, i: int)
    requires
        0 <= i <= d.len(),
    ensures
        digits_value(d.take(i)) <= digits_value(d),
    decreases d.len(),
{
    if i < d.len() {
        assert(d.drop_last().take(i) =~= d.take(i));
        lemma_digits_value_prefix(d.drop_last(), i);
    } else {
        assert(d.take(i) =~= d);
    }
}

/// Whether `t` reads as a `u32`, as `reads_as_u32` says.
fn reads_u32(t: &str) -> (r: bool)
    ensures
        r == reads_as_u32(t@),
{
    let s = chars_of(t);
    let start: usize = if s.len() > 0 && s[0] == '+' {
        1
    } else {
        0
    };
    let ghost d = unsigned_digits(t@);
    assert(d =~= s@.skip(start as int));
    if start >= s.len() {
        return false;
    }
    let mut v: u64 = 0;
    let mut i: usize = start;
    while i < s.len()
        invariant
            start <= i <= s@.len(),
            d == unsigned_digits(t@),
            d =~= s@.skip(start as int),
            v == digits_value(d.take(i - start)),
            v <= u32::MAX,
            forall|k: int| 0 <= k < i - start ==> is_digit(#[trigger] d[k]),
        decreases s@.len() - i,
    {
        assert(d[i - start] == s@[i as int]);
        match digit_value(s[i]) {
            None => {
                assert(!is_digit(d[(i - start) as int]));
                return false;
            },
            Some(x) => {
                assert(d.take(i + 1 - start).drop_last() =~= d.take(i - start));
                assert(d.take(i + 1 - start).last() == d[(i - start) as int]);
                v = v * 10 + x;
                assert(v == digits_value(d.take(i + 1 - start)));
                if v > 0xffff_ffff {
                    proof {
                        lemma_digits_value_prefix(d, i + 1 - start);
                    }
                    return false;
                }
            },
        }
        i = i + 1;
    }
    assert(d.take(i - start) =~= d);
    true
}

/// The characters of `s` from index `from` on.
fn chars_after(s: &Vec<char>, from: usize) -> (r: Vec<char>)
    requires
        from <= s@.len(),
    ensures
        r@ == s@.skip(from as int),
{
    let mut r: Vec<char> = Vec::new();
    let mut i: usize = from;
    while i < s.len()
        invariant
            from <= i <= s@.len(),
            r@ == s@.subrange(from as int, i as int),
        decreases s@.len() - i,
    {
        r.push(s[i]);
        i = i + 1;
    }
    r
}

/// The end, in `id`, of the text after `from` and before its first "_tf".
fn end_before_tf(id: &Vec<char>, from: usize) -> (r: usize)
    requires
        from <= id@.len(),
    ensures
        from <= r <= id@.len(),
        id@.subrange(from as int, r as int) == before_tf(id@.skip(from as int)),
{
    let n = id.len();
    let rest = chars_after(id, from);
    let tf = chars_of("_tf");
    assert(rest@.len() == id@.len() - from);
    match find(&rest, &tf) {
        Some(k) => {
            assert(id@.subrange(from as int, (from + k) as int) =~= rest@.take(k as int));
            from + k
        },
        None => {
            assert(id@.subrange(from as int, id@.len() as int) =~= rest@);
            id.len()
        },
    }
}

/// The aliases of the entry or exit identifier rest from `from` on.
fn side_aliases_exec(id: &str, chars: &Vec<char>, from: usize) -> (r: Vec<String>)
    requires
        from <= id@.len(),
        chars@ == id@,
    ensures
        texts_of(r@) == side_aliases(id@.skip(from as int)),
{
    let parts = split_pieces(id, from, chars.len(), '_');
    assert(id@.subrange(from as int, id@.len() as int) =~= id@.skip(from as int));
    let mut r: Vec<String> = Vec::new();
    let n = parts.len();
    if n >= 3 && reads_u32(parts[n - 1].as_str()) {
        r.push(parts[0].clone());
        r.push(parts[1].clone());
        assert(texts_of(r@) =~= seq![texts_of(parts@)[0], texts_of(parts@)[1]]);
    } else {
        r.push(parts[0].clone());
        assert(texts_of(r@) =~= seq![texts_of(parts@)[0]]);
    }
    r
}

/// The indicator aliases that a condition identifier names, as
/// `aliases_in_condition_id` says.
pub fn extract_all_indicator_aliases_from_condition(condition_id: &str) -> (r: Vec<String>)
    ensures
        texts_of(r@) == aliases_in_condition_id(condition_id@),
{
    let id = chars_of(condition_id);
    proof {
        reveal_strlit("ind_ind_");
        reveal_strlit("entry_");
        reveal_strlit("exit_");
        reveal_strlit("ind_price_");
        reveal_strlit("ind_const_");
    }
    let mut r: Vec<String> = Vec::new();
    if starts_with(&id, &chars_of("ind_ind_")) {
        let end = end_before_tf(&id, 8);
        let parts = split_pieces(condition_id, 8, end, '_');
        if parts.len() >= 2 {
            r.push(parts[0].clone());
            r.push(parts[1].clone());
            assert(texts_of(r@) =~= seq![texts_of(parts@)[0], texts_of(parts@)[1]]);
        } else {
            assert(texts_of(r@) =~= Seq::<Seq<char>>::empty());
        }
        r
    } else if starts_with(&id, &chars_of("entry_")) {
        side_aliases_exec(condition_id, &id, 6)
    } else if starts_with(&id, &chars_of("exit_")) {
        side_aliases_exec(condition_id, &id, 5)
    } else if starts_with(&id, &chars_of("ind_price_")) || starts_with(&id, &chars_of("ind_const_")) {
        let end = end_before_tf(&id, 10);
        let parts = split_pieces(condition_id, 10, end, '_');
        r.push(parts[0].clone());
        assert(texts_of(r@) =~= seq![texts_of(parts@)[0]]);
        r
    } else {
        assert(texts_of(r@) =~= Seq::<Seq<char>>::empty());
        r
    }
}


/// The first indicator alias that a condition identifier names, if any.
pub fn extract_indicator_alias_from_condition_id(condition_id: &str) -> (r: Option<String>)
    ensures
        match r {
            Some(a) => aliases_in_condition_id(condition_id@).len() > 0 && a@ == aliases_in_condition_id(condition_id@)[0],
            None => aliases_in_condition_id(condition_id@).len() == 0,
        },
{
    let aliases = extract_all_indicator_aliases_from_condition(condition_id);
    if aliases.len() > 0 {
        Some(aliases[0].clone())
    } else {
        None
    }
}

/// The name of the indicator, or else of the nested indicator, that has the
/// first alias the condition's identifier names.
pub open spec fn indicator_name_by_id(c: StrategyCandidateView, cond: ConditionInfo) -> Option<Seq<char>> {
    let aliases = aliases_in_condition_id(cond.id@);
    if aliases.len() == 0 {
        None
    } else {
        match first_indicator(c.indicators, aliases[0]) {
            Some(i) => Some(c.indicators[i].name@),
            None => match first_nested(c.nested_indicators, aliases[0]) {
                Some(j) => Some(c.nested_indicators[j].indicator.name@),
                None => None,
            },
        }
    }
}

/// The name of the indicator behind the first alias that the condition's
/// identifier names, if the candidate has it.
pub fn extract_indicator_name_by_condition_id(candidate: &StrategyCandidate, condition: &ConditionInfo) -> (r: Option<
    String,
>)
    ensures
        match r {
            Some(n) => indicator_name_by_id(candidate@, *condition) == Some(n@),
            None => indicator_name_by_id(candidate@, *condition) is None,
        },
{
    let alias = match extract_indicator_alias_from_condition_id(condition.id.as_str()) {
        Some(a) => a,
        None => {
            return None;
        },
    };
    match find_indicator(candidate.indicators.as_slice(), &alias) {
        Some(i) => Some(candidate.indicators[i].name.clone()),
        None => match find_nested(candidate.nested_indicators.as_slice(), &alias) {
            Some(j) => Some(candidate.nested_indicators[j].indicator.name.clone()),
            None => None,
        },
    }
}

/// The rule is a volatility rule that covers the indicator's name (every
/// name when it lists none) and binds its conditions to the close price.
pub open spec fn binds_to_close(rule: IndicatorParameterRule, ind: IndicatorInfo) -> bool {
    &&& rule.indicator_type@ == "volatility"@
    &&& (rule.indicator_names@.len() == 0 || has_text(rule.indicator_names@, ind.name@))
    &&& rule.price_field_constraint matches Some(c) && c.required_price_field@ == close_text()
}

/// The condition compares with the close price, and the first alias its
/// identifier names is the indicator's.
pub open spec fn reads_close_of(cond: ConditionInfo, ind: IndicatorInfo) -> bool {
    &&& cond.price_field matches Some(f) && f@ == close_text()
    &&& aliases_in_condition_id(cond.id@).len() > 0
    &&& aliases_in_condition_id(cond.id@)[0] == ind.alias@
}

/// A volatility indicator is bound to the close price: a rule binds it,
/// and an entry or exit condition compares it with the close price.
pub open spec fn volatility_bound(
    ind: IndicatorInfo,
    conditions: Seq<ConditionInfo>,
    exit_conditions: Seq<ConditionInfo>,
    rules: Seq<IndicatorParameterRule>,
) -> bool {
    &&& ind.indicator_type@ == "volatility"@
    &&& exists|r: int| 0 <= r < rules.len() && binds_to_close(#[trigger] rules[r], ind)
    &&& exists|k: int|
        0 <= k < conditions.len() + exit_conditions.len() && reads_close_of(#[trigger] (conditions + exit_conditions)[k], ind)
}

fn reads_close_exec(cond: &ConditionInfo, ind: &IndicatorInfo) -> (r: bool)
    ensures
        r == reads_close_of(*cond, *ind),
{
    let close = match &cond.price_field {
        Some(f) => {
            proof {
                reveal_strlit("Close");
            }
            let c = chars_of("Close");
            assert(c@ == close_text());
            crate::text::text_is(f.as_str(), &c)
        },
        None => false,
    };
    if !close {
        return false;
    }
    match extract_indicator_alias_from_condition_id(cond.id.as_str()) {
        Some(a) => crate::text::same_text(a.as_str(), ind.alias.as_str()),
        None => false,
    }
}

fn any_reads_close(conds: &Vec<ConditionInfo>, ind: &IndicatorInfo) -> (r: bool)
    ensures
        r == exists|k: int| 0 <= k < conds@.len() && reads_close_of(#[trigger] conds@[k], *ind),
{
    let mut k: usize = 0;
    while k < conds.len()
        invariant
            k <= conds@.len(),
            forall|q: int| 0 <= q < k ==> !reads_close_of(#[trigger] conds@[q], *ind),
        decreases conds@.len() - k,
    {
        if reads_close_exec(&conds[k], ind) {
            return true;
        }
        k = k + 1;
    }
    false
}

/// Whether the volatility indicator is bound to the close price, as
/// `volatility_bound` says.
pub fn should_apply_volatility_constraint(
    indicator: &IndicatorInfo,
    conditions: &Vec<ConditionInfo>,
    exit_conditions: &Vec<ConditionInfo>,
    config: &CandidateBuilderConfig,
) -> (r: bool)
    ensures
        r == volatility_bound(*indicator, conditions@, exit_conditions@, config.rules.indicator_parameter_rules@),
{
    proof {
        reveal_strlit("volatility");
        reveal_strlit("Close");
    }
    let volatility = chars_of("volatility");
    if !crate::text::text_is(indicator.indicator_type.as_str(), &volatility) {
        return false;
    }
    let rules = &config.rules.indicator_parameter_rules;
    let close = chars_of("Close");
    assert(close@ == close_text());
    let mut bound = false;
    let mut i: usize = 0;
    while i < rules.len()
        invariant
            i <= rules@.len(),
            volatility@ == "volatility"@,
            close@ == close_text(),
            rules == &config.rules.indicator_parameter_rules,
            bound <==> exists|q: int| 0 <= q < i && binds_to_close(#[trigger] rules@[q], *indicator),
        decreases rules@.len() - i,
    {
        let rule = &rules[i];
        let kind = crate::text::text_is(rule.indicator_type.as_str(), &volatility);
        let named = rule.indicator_names.len() == 0 || contains_text(&rule.indicator_names, indicator.name.as_str());
        let closing = match &rule.price_field_constraint {
            Some(c) => crate::text::text_is(c.required_price_field.as_str(), &close),
            None => false,
        };
        if kind && named && closing {
            bound = true;
        }
        i = i + 1;
    }
    if !bound {
        return false;
    }
    let in_entry = any_reads_close(conditions, indicator);
    let in_exit = any_reads_close(exit_conditions, indicator);
    proof {
        let all = conditions@ + exit_conditions@;
        if in_entry {
            let k = choose|k: int| 0 <= k < conditions@.len() && reads_close_of(#[trigger] conditions@[k], *indicator);
            assert(all[k] == conditions@[k]);
        }
        if in_exit {
            let k = choose|k: int| 0 <= k < exit_conditions@.len() && reads_close_of(#[trigger] exit_conditions@[k], *indicator);
            assert(all[conditions@.len() + k] == exit_conditions@[k]);
        }
        if exists|k: int| 0 <= k < all.len() && reads_close_of(#[trigger] all[k], *indicator) {
            let k = choose|k: int| 0 <= k < all.len() && reads_close_of(#[trigger] all[k], *indicator);
            if k < conditions@.len() {
                assert(all[k] == conditions@[k]);
            } else {
                assert(all[k] == exit_conditions@[k - conditions@.len()]);
            }
        }
    }
    in_entry || in_exit
}


/// A range of percentages of the price, in thousandths of a percent.
#[derive(Clone, Copy, Debug, PartialEq, Eq, Structural)]
pub struct PercentRange {
    pub start: u64,
    pub end: u64,
    pub step: u64,
}

/// The rule is a volatility rule that covers the indicator's name and
/// bounds its parameter by percentages of the price.
pub open spec fn percent_rule(rule: IndicatorParameterRule, ind: IndicatorInfo) -> bool {
    &&& rule.indicator_type@ == "volatility"@
    &&& (rule.indicator_names@.len() == 0 || has_text(rule.indicator_names@, ind.name@))
    &&& rule.price_field_constraint matches Some(c) && c.parameter_constraint is PercentageFromPrice
}

/// The percentage range of the first rule from `i` on that bounds the
/// indicator's parameter by percentages of the price.
pub open spec fn percent_range_from(rules: Seq<IndicatorParameterRule>, ind: IndicatorInfo, i: int) -> Option<PercentRange>
    decreases rules.len() - i,
{
    if i < 0 || i >= rules.len() {
        None
    } else if percent_rule(rules[i], ind) {
        match rules[i].price_field_constraint {
            Some(c) => match c.parameter_constraint {
                ParameterConstraint::PercentageFromPrice { min_percent, max_percent, step } => Some(
                    PercentRange { start: min_percent, end: max_percent, step },
                ),
                _ => None,
            },
            None => None,
        }
    } else {
        percent_range_from(rules, ind, i + 1)
    }
}

/// The percentage range of the first volatility rule that covers the
/// indicator and bounds its parameter by percentages of the price.
pub fn get_volatility_percentage_range(config: &CandidateBuilderConfig, indicator: &IndicatorInfo) -> (r: Option<
    PercentRange,
>)
    ensures
        r == percent_range_from(config.rules.indicator_parameter_rules@, *indicator, 0),
{
    proof {
        reveal_strlit("volatility");
    }
    let volatility = chars_of("volatility");
    let rules = &config.rules.indicator_parameter_rules;
    let mut i: usize = 0;
    while i < rules.len()
        invariant
            i <= rules@.len(),
            volatility@ == "volatility"@,
            rules == &config.rules.indicator_parameter_rules,
            percent_range_from(rules@, *indicator, 0) == percent_range_from(rules@, *indicator, i as int),
        decreases rules@.len() - i,
    {
        let rule = &rules[i];
        if crate::text::text_is(rule.indicator_type.as_str(), &volatility) && (rule.indicator_names.len() == 0
            || contains_text(&rule.indicator_names, indicator.name.as_str())) {
            match &rule.price_field_constraint {
                Some(c) => match c.parameter_constraint {
                    ParameterConstraint::PercentageFromPrice { min_percent, max_percent, step } => {
                        return Some(PercentRange { start: min_percent, end: max_percent, step });
                    },
                    _ => {},
                },
                None => {},
            }
        }
        i = i + 1;
    }
    None
}

} // verus!
