//! Identifiers of trading conditions: how they are built from a prefix, the
//! aliases of the indicators involved and a random number, and how they are
//! read back.

use vstd::prelude::*;
use vstd::string::*;
use crate::model::{indicator_indicator_text, is_kind, ConditionInfo, ConditionKind, TimeFrame};
use crate::text::{
    chars_of, contains, contains_spec, decimal, find, find_spec, last_index_of, owned,
    push_decimal, rfind_char, starts_with, starts_with_spec, substring, lemma_decimal_digits,
    lemma_no_occurrence_before_digits, lemma_last_underscore_before_digits, lemma_find_none,
    lemma_find_from, occurs_at, lemma_first_occurrence_before_digits,
};

verus! {

/// The marker between the aliases of an indicator-indicator condition.
pub open spec fn sep_pat() -> Seq<char> {
    seq![':', ':']
}

/// The marker of a rising-trend condition.
pub open spec fn rising_pat() -> Seq<char> {
    seq!['_', 'r', 'i', 's', 'i', 'n', 'g', 't', 'r', 'e', 'n', 'd', '_']
}

/// The marker of a falling-trend condition.
pub open spec fn falling_pat() -> Seq<char> {
    seq!['_', 'f', 'a', 'l', 'l', 'i', 'n', 'g', 't', 'r', 'e', 'n', 'd', '_']
}

/// The head of a condition identifier, without its trailing underscore.
pub open spec fn prefix_text(p: ConditionPrefix) -> Seq<char> {
    match p {
        ConditionPrefix::Entry => seq!['e', 'n', 't', 'r', 'y'],
        ConditionPrefix::Exit => seq!['e', 'x', 'i', 't'],
        ConditionPrefix::IndPrice => seq!['i', 'n', 'd', '_', 'p', 'r', 'i', 'c', 'e'],
        ConditionPrefix::IndConst => seq!['i', 'n', 'd', '_', 'c', 'o', 'n', 's', 't'],
        ConditionPrefix::IndInd => seq!['i', 'n', 'd', '_', 'i', 'n', 'd'],
    }
}

/// The word of a trend in identifiers.
pub open spec fn trend_text(t: TrendType) -> Seq<char> {
    match t {
        TrendType::Rising => seq!['r', 'i', 's', 'i', 'n', 'g', 't', 'r', 'e', 'n', 'd'],
        TrendType::Falling => seq!['f', 'a', 'l', 'l', 'i', 'n', 'g', 't', 'r', 'e', 'n', 'd'],
    }
}

/// The name of a trend as an operator.
pub open spec fn trend_display(t: TrendType) -> Seq<char> {
    match t {
        TrendType::Rising => seq!['R', 'i', 's', 'i', 'n', 'g', 'T', 'r', 'e', 'n', 'd'],
        TrendType::Falling => seq!['F', 'a', 'l', 'l', 'i', 'n', 'g', 'T', 'r', 'e', 'n', 'd'],
    }
}

/// The prefix with which an identifier begins, and what follows it, trying
/// the prefixes in the order entry, exit, ind_price, ind_const, ind_ind.
pub open spec fn split_prefix(id: Seq<char>) -> Option<(ConditionPrefix, Seq<char>)> {
    if starts_with_spec(id, prefix_text(ConditionPrefix::Entry).push('_')) {
        Some((ConditionPrefix::Entry, id.skip(6)))
    } else if starts_with_spec(id, prefix_text(ConditionPrefix::Exit).push('_')) {
        Some((ConditionPrefix::Exit, id.skip(5)))
    } else if starts_with_spec(id, prefix_text(ConditionPrefix::IndPrice).push('_')) {
        Some((ConditionPrefix::IndPrice, id.skip(10)))
    } else if starts_with_spec(id, prefix_text(ConditionPrefix::IndConst).push('_')) {
        Some((ConditionPrefix::IndConst, id.skip(10)))
    } else if starts_with_spec(id, prefix_text(ConditionPrefix::IndInd).push('_')) {
        Some((ConditionPrefix::IndInd, id.skip(8)))
    } else {
        None
    }
}

/// The reading of the part of an identifier after its prefix: an
/// indicator-indicator condition if it holds `::` (the primary alias before
/// the first `::`, the secondary one up to the last underscore after it); a
/// trend condition if it holds a trend marker (the alias before the first
/// one, rising tried first); else a simple condition, whose alias ends at the
/// last underscore.
pub open spec fn parse_rest(prefix: ConditionPrefix, rest: Seq<char>) -> Option<ParsedConditionIdView> {
    match find_spec(rest, sep_pat()) {
        Some(p) => {
            let after = rest.skip(p + 2);
            match last_index_of(after, '_') {
                Some(u) => Some(ParsedConditionIdView {
                    prefix,
                    condition_type: ConditionIdType::IndicatorIndicator,
                    primary_alias: rest.take(p),
                    secondary_alias: Some(after.take(u)),
                    trend_type: None,
                }),
                None => None,
            }
        },
        None => match find_spec(rest, rising_pat()) {
            Some(p) => Some(ParsedConditionIdView {
                prefix,
                condition_type: ConditionIdType::TrendCondition,
                primary_alias: rest.take(p),
                secondary_alias: None,
                trend_type: Some(TrendType::Rising),
            }),
            None => match find_spec(rest, falling_pat()) {
                Some(p) => Some(ParsedConditionIdView {
                    prefix,
                    condition_type: ConditionIdType::TrendCondition,
                    primary_alias: rest.take(p),
                    secondary_alias: None,
                    trend_type: Some(TrendType::Falling),
                }),
                None => match last_index_of(rest, '_') {
                    Some(u) => Some(ParsedConditionIdView {
                        prefix,
                        condition_type: ConditionIdType::Simple,
                        primary_alias: rest.take(u),
                        secondary_alias: None,
                        trend_type: None,
                    }),
                    None => None,
                },
            },
        },
    }
}

/// The reading of a condition identifier.
pub open spec fn parse_spec(id: Seq<char>) -> Option<ParsedConditionIdView> {
    match split_prefix(id) {
        Some((prefix, rest)) => parse_rest(prefix, rest),
        None => None,
    }
}

/// The kind of prefix with which a condition identifier begins.
#[derive(Clone, Copy, Debug, PartialEq, Eq, Structural)]
pub enum ConditionPrefix {
    Entry,
    Exit,
    IndPrice,
    IndConst,
    IndInd,
}

impl ConditionPrefix {
    /// The prefix as it is written in identifiers.
    pub fn as_str(&self) -> (r: &'static str)
        ensures
            r@ == prefix_text(*self),
    {
        proof {
            reveal_strlit("entry");
            reveal_strlit("exit");
            reveal_strlit("ind_price");
            reveal_strlit("ind_const");
            reveal_strlit("ind_ind");
        }
        match self {
            ConditionPrefix::Entry => "entry",
            ConditionPrefix::Exit => "exit",
            ConditionPrefix::IndPrice => "ind_price",
            ConditionPrefix::IndConst => "ind_const",
            ConditionPrefix::IndInd => "ind_ind",
        }
    }
}

/// The direction of a trend condition.
#[derive(Clone, Copy, Debug, PartialEq, Eq, Structural)]
pub enum TrendType {
    Rising,
    Falling,
}

impl TrendType {
    /// The trend as it is written in identifiers.
    pub fn as_str(&self) -> (r: &'static str)
        ensures
            r@ == trend_text(*self),
    {
        proof {
            reveal_strlit("risingtrend");
            reveal_strlit("fallingtrend");
        }
        match self {
            TrendType::Rising => "risingtrend",
            TrendType::Falling => "fallingtrend",
        }
    }

    /// The trend as it is named as an operator.
    pub fn display_name(&self) -> (r: &'static str)
        ensures
            r@ == trend_display(*self),
    {
        proof {
            reveal_strlit("RisingTrend");
            reveal_strlit("FallingTrend");
        }
        match self {
            TrendType::Rising => "RisingTrend",
            TrendType::Falling => "FallingTrend",
        }
    }

    /// The trend named by an operator name, in either spelling.
    pub fn from_operator_name(name: &str) -> (r: Option<TrendType>)
        ensures
            r == (if name@ == trend_display(TrendType::Rising) || name@ == trend_text(TrendType::Rising) {
                Some(TrendType::Rising)
            } else if name@ == trend_display(TrendType::Falling) || name@ == trend_text(TrendType::Falling) {
                Some(TrendType::Falling)
            } else {
                None
            }),
    {
        let n = chars_of(name);
        let rising_display: Vec<char> = vec!['R', 'i', 's', 'i', 'n', 'g', 'T', 'r', 'e', 'n', 'd'];
        let rising: Vec<char> = vec!['r', 'i', 's', 'i', 'n', 'g', 't', 'r', 'e', 'n', 'd'];
        let falling_display: Vec<char> = vec!['F', 'a', 'l', 'l', 'i', 'n', 'g', 'T', 'r', 'e', 'n', 'd'];
        let falling: Vec<char> = vec!['f', 'a', 'l', 'l', 'i', 'n', 'g', 't', 'r', 'e', 'n', 'd'];
        if crate::text::chars_eq(&n, &rising_display) || crate::text::chars_eq(&n, &rising) {
            Some(TrendType::Rising)
        } else if crate::text::chars_eq(&n, &falling_display) || crate::text::chars_eq(&n, &falling) {
            Some(TrendType::Falling)
        } else {
            None
        }
    }
}

/// The shape of a condition that an identifier names.
#[derive(Clone, Copy, Debug, PartialEq, Eq, Structural)]
pub enum ConditionIdType {
    Simple,
    IndicatorIndicator,
    TrendCondition,
}

/// What a condition identifier says: its prefix, shape and aliases.
pub struct ParsedConditionId {
    pub prefix: ConditionPrefix,
    pub condition_type: ConditionIdType,
    pub primary_alias: String,
    pub secondary_alias: Option<String>,
    pub trend_type: Option<TrendType>,
}

/// A parsed identifier with its texts as character sequences.
pub struct ParsedConditionIdView {
    pub prefix: ConditionPrefix,
    pub condition_type: ConditionIdType,
    pub primary_alias: Seq<char>,
    pub secondary_alias: Option<Seq<char>>,
    pub trend_type: Option<TrendType>,
}

impl View for ParsedConditionId {
    type V = ParsedConditionIdView;

    open spec fn view(&self) -> ParsedConditionIdView {
        ParsedConditionIdView {
            prefix: self.prefix,
            condition_type: self.condition_type,
            primary_alias: self.primary_alias@,
            secondary_alias: match self.secondary_alias {
                Some(s) => Some(s@),
                None => None,
            },
            trend_type: self.trend_type,
        }
    }
}

impl ParsedConditionId {
    /// Whether the identifier names an indicator-indicator condition.
    pub fn is_indicator_indicator(&self) -> (r: bool)
        ensures
            r == (self.condition_type == ConditionIdType::IndicatorIndicator),
    {
        self.condition_type == ConditionIdType::IndicatorIndicator
    }

    /// Whether the identifier names a trend condition.
    pub fn is_trend_condition(&self) -> (r: bool)
        ensures
            r == (self.condition_type == ConditionIdType::TrendCondition),
    {
        self.condition_type == ConditionIdType::TrendCondition
    }

    /// Whether the identifier has the entry prefix.
    pub fn is_entry(&self) -> (r: bool)
        ensures
            r == (self.prefix == ConditionPrefix::Entry),
    {
        self.prefix == ConditionPrefix::Entry
    }

    /// Whether the identifier has the exit prefix.
    pub fn is_exit(&self) -> (r: bool)
        ensures
            r == (self.prefix == ConditionPrefix::Exit),
    {
        self.prefix == ConditionPrefix::Exit
    }
}

/// The timeframes that the conditions require of one indicator alias.
pub struct RequiredTimeframes {
    pub alias: String,
    pub timeframes: Vec<TimeFrame>,
}

/// The (alias, timeframe) pairs that one condition requires: its primary
/// alias on its primary timeframe (the base one if it has none), and for an
/// indicator-indicator condition its secondary alias on its secondary
/// timeframe.
pub open spec fn condition_requirements(c: ConditionInfo, base: TimeFrame) -> Set<(Seq<char>, TimeFrame)> {
    let primary_tf = match c.primary_timeframe {
        Some(tf) => tf,
        None => base,
    };
    let secondary_tf = match c.secondary_timeframe {
        Some(tf) => tf,
        None => base,
    };
    let first = set![(c.primary_indicator_alias@, primary_tf)];
    if c.condition_type@ == indicator_indicator_text() {
        match c.secondary_indicator_alias {
            Some(s) => first.insert((s@, secondary_tf)),
            None => first,
        }
    } else {
        first
    }
}

/// The pairs that a list of conditions requires.
pub open spec fn all_requirements(cs: Seq<ConditionInfo>, base: TimeFrame) -> Set<(Seq<char>, TimeFrame)>
    decreases cs.len(),
{
    if cs.len() == 0 {
        Set::empty()
    } else {
        all_requirements(cs.drop_last(), base).union(condition_requirements(cs.last(), base))
    }
}

/// The (alias, timeframe) pairs that a table of requirements holds.
pub open spec fn table_pairs(t: Seq<RequiredTimeframes>) -> Set<(Seq<char>, TimeFrame)> {
    Set::new(|p: (Seq<char>, TimeFrame)|
        exists|i: int, j: int|
            0 <= i < t.len() && 0 <= j < t[i].timeframes@.len() && t[i].alias@ == p.0
                && #[trigger] t[i].timeframes@[j] == p.1)
}

/// A table of requirements names each alias once, with at least one
/// timeframe, and each of its timeframes once.
pub open spec fn table_well_formed(t: Seq<RequiredTimeframes>) -> bool {
    &&& forall|i: int, j: int| 0 <= i < j < t.len() ==> t[i].alias@ != t[j].alias@
    &&& forall|i: int| 0 <= i < t.len() ==> (#[trigger] t[i].timeframes@).no_duplicates()
    &&& forall|i: int| 0 <= i < t.len() ==> (#[trigger] t[i].timeframes@).len() > 0
}

/// Adds the pair (`alias`, `tf`) to a table of requirements.
fn insert_requirement(table: &mut Vec<RequiredTimeframes>, alias: &String, tf: TimeFrame)
    requires
        table_well_formed(old(table)@),
    ensures
        table_well_formed(final(table)@),
        table_pairs(final(table)@) == table_pairs(old(table)@).insert((alias@, tf)),
{
    let ghost old_t = table@;
    assert(old_t == old(table)@);
    let mut i: usize = 0;
    while i < table.len()
        invariant
            table@ == old_t,
            old_t == old(table)@,
            table_well_formed(old_t),
            i <= table@.len(),
            forall|k: int| 0 <= k < i ==> table@[k].alias@ != alias@,
        decreases table@.len() - i,
    {
        if table[i].alias == *alias {
            let mut j: usize = 0;
            while j < table[i].timeframes.len()
                invariant
                    table@ == old_t,
                    old_t == old(table)@,
                    table_well_formed(old_t),
                    table@[i as int].alias@ == alias@,
                    i < table@.len(),
                    j <= table@[i as int].timeframes@.len(),
                    forall|k: int| 0 <= k < j ==> table@[i as int].timeframes@[k] != tf,
                decreases table@[i as int].timeframes@.len() - j,
            {
                if table[i].timeframes[j].minutes == tf.minutes {
                    assert(old_t[i as int].timeframes@[j as int] == tf);
                    assert(table_pairs(old_t).contains((alias@, tf)));
                    assert(table_pairs(old_t).insert((alias@, tf)) =~= table_pairs(old_t));
                    return;
                }
                j = j + 1;
            }
            let mut entry = table.remove(i);
            let ghost old_tfs = entry.timeframes@;
            assert(!old_tfs.contains(tf));
            entry.timeframes.push(tf);
            table.insert(i, entry);
            proof {
                let t = table@;
                assert(forall|k: int| 0 <= k < t.len() && k != i ==> t[k] == old_t[k]);
                assert(t[i as int].alias@ == old_t[i as int].alias@);
                assert(t[i as int].timeframes@ == old_tfs.push(tf));
                assert forall|p: (Seq<char>, TimeFrame)| #[trigger] table_pairs(t).contains(p)
                    implies table_pairs(old_t).insert((alias@, tf)).contains(p) by {
                    let (a, b) = choose|a: int, b: int|
                        0 <= a < t.len() && 0 <= b < t[a].timeframes@.len() && t[a].alias@ == p.0
                            && #[trigger] t[a].timeframes@[b] == p.1;
                    if a == i && b == old_tfs.len() {
                    } else {
                        assert(old_t[a].timeframes@[b] == p.1);
                    }
                }
                assert forall|p: (Seq<char>, TimeFrame)| table_pairs(old_t).insert((alias@, tf)).contains(p)
                    implies #[trigger] table_pairs(t).contains(p) by {
                    if p == (alias@, tf) {
                        assert(t[i as int].timeframes@[old_tfs.len() as int] == tf);
                    } else {
                        let (a, b) = choose|a: int, b: int|
                            0 <= a < old_t.len() && 0 <= b < old_t[a].timeframes@.len()
                                && old_t[a].alias@ == p.0 && #[trigger] old_t[a].timeframes@[b] == p.1;
                        assert(t[a].timeframes@[b] == p.1);
                    }
                }
                assert(table_pairs(t) =~= table_pairs(old_t).insert((alias@, tf)));
                assert(t[i as int].timeframes@.no_duplicates());
            }
            return;
        }
        i = i + 1;
    }
    let mut tfs: Vec<TimeFrame> = Vec::new();
    tfs.push(tf);
    table.push(RequiredTimeframes { alias: alias.clone(), timeframes: tfs });
    proof {
        let t = table@;
        assert(forall|k: int| 0 <= k < old_t.len() ==> t[k] == old_t[k]);
        assert(t[old_t.len() as int].timeframes@ =~= seq![tf]);
        assert forall|p: (Seq<char>, TimeFrame)| #[trigger] table_pairs(t).contains(p)
            implies table_pairs(old_t).insert((alias@, tf)).contains(p) by {
            let (a, b) = choose|a: int, b: int|
                0 <= a < t.len() && 0 <= b < t[a].timeframes@.len() && t[a].alias@ == p.0
                    && #[trigger] t[a].timeframes@[b] == p.1;
            if a == old_t.len() {
            } else {
                assert(old_t[a].timeframes@[b] == p.1);
            }
        }
        assert forall|p: (Seq<char>, TimeFrame)| table_pairs(old_t).insert((alias@, tf)).contains(p)
            implies #[trigger] table_pairs(t).contains(p) by {
            if p == (alias@, tf) {
                assert(t[old_t.len() as int].timeframes@[0] == tf);
            } else {
                let (a, b) = choose|a: int, b: int|
                    0 <= a < old_t.len() && 0 <= b < old_t[a].timeframes@.len() && old_t[a].alias@ == p.0
                        && #[trigger] old_t[a].timeframes@[b] == p.1;
                assert(t[a].timeframes@[b] == p.1);
            }
        }
        assert(table_pairs(t) =~= table_pairs(old_t).insert((alias@, tf)));
    }
}

/// A unit type that gathers the functions on condition identifiers.
pub struct ConditionId;

impl ConditionId {
    /// The identifier `{prefix}_{alias}_{random}` of an indicator-price condition.
    pub fn indicator_price(prefix: &str, alias: &str, random: u32) -> (r: String)
        ensures
            r@ == prefix@ + seq!['_'] + alias@ + seq!['_'] + decimal(random as nat),
    {
        proof {
            reveal_strlit("_");
        }
        let mut s = owned(prefix);
        s.append("_");
        s.append(alias);
        s.append("_");
        push_decimal(&mut s, random as u64);
        s
    }

    /// The identifier `{prefix}_{alias}_{random}` of an indicator-constant condition.
    pub fn indicator_constant(prefix: &str, alias: &str, random: u32) -> (r: String)
        ensures
            r@ == prefix@ + seq!['_'] + alias@ + seq!['_'] + decimal(random as nat),
    {
        Self::indicator_price(prefix, alias, random)
    }

    /// The identifier `{prefix}_{primary}::{secondary}_{random}` of an
    /// indicator-indicator condition.
    pub fn indicator_indicator(prefix: &str, primary_alias: &str, secondary_alias: &str, random: u32) -> (r: String)
        ensures
            r@ == prefix@ + seq!['_'] + primary_alias@ + sep_pat() + secondary_alias@ + seq!['_']
                + decimal(random as nat),
    {
        proof {
            reveal_strlit("_");
            reveal_strlit("::");
        }
        let mut s = owned(prefix);
        s.append("_");
        s.append(primary_alias);
        s.append("::");
        s.append(secondary_alias);
        s.append("_");
        push_decimal(&mut s, random as u64);
        s
    }

    /// The identifier `{prefix}_{alias}_{price_field}_{operator}_{tf1}_{tf2}`,
    /// each timeframe written by its identifier.
    pub fn indicator_price_with_timeframes(
        prefix: &str,
        alias: &str,
        price_field: &str,
        operator: &str,
        primary_tf: &TimeFrame,
        secondary_tf: &TimeFrame,
    ) -> (r: String)
        ensures
            r@ == prefix@ + seq!['_'] + alias@ + seq!['_'] + price_field@ + seq!['_'] + operator@
                + seq!['_'] + decimal(primary_tf.minutes as nat) + seq!['_'] + decimal(
                secondary_tf.minutes as nat,
            ),
    {
        proof {
            reveal_strlit("_");
        }
        let mut s = owned(prefix);
        s.append("_");
        s.append(alias);
        s.append("_");
        s.append(price_field);
        s.append("_");
        s.append(operator);
        s.append("_");
        push_decimal(&mut s, primary_tf.minutes as u64);
        s.append("_");
        push_decimal(&mut s, secondary_tf.minutes as u64);
        s
    }

    /// The identifier `{prefix}_{primary}::{secondary}_{operator}_tf{tf1}_tf{tf2}`,
    /// each timeframe written by its identifier.
    pub fn indicator_indicator_with_timeframes(
        prefix: &str,
        primary_alias: &str,
        secondary_alias: &str,
        operator: &str,
        primary_tf: &TimeFrame,
        secondary_tf: &TimeFrame,
    ) -> (r: String)
        ensures
            r@ == prefix@ + seq!['_'] + primary_alias@ + sep_pat() + secondary_alias@ + seq!['_']
                + operator@ + seq!['_', 't', 'f'] + decimal(primary_tf.minutes as nat) + seq![
                '_',
                't',
                'f',
            ] + decimal(secondary_tf.minutes as nat),
    {
        proof {
            reveal_strlit("_");
            reveal_strlit("::");
            reveal_strlit("_tf");
        }
        let mut s = owned(prefix);
        s.append("_");
        s.append(primary_alias);
        s.append("::");
        s.append(secondary_alias);
        s.append("_");
        s.append(operator);
        s.append("_tf");
        push_decimal(&mut s, primary_tf.minutes as u64);
        s.append("_tf");
        push_decimal(&mut s, secondary_tf.minutes as u64);
        s
    }

    /// The identifier `{prefix}_{alias}_{trend}_{random}` of a trend condition.
    pub fn trend_condition(prefix: &str, alias: &str, trend_type: TrendType, random: u32) -> (r: String)
        ensures
            r@ == prefix@ + seq!['_'] + alias@ + seq!['_'] + trend_text(trend_type) + seq!['_']
                + decimal(random as nat),
    {
        proof {
            reveal_strlit("_");
        }
        let mut s = owned(prefix);
        s.append("_");
        s.append(alias);
        s.append("_");
        s.append(trend_type.as_str());
        s.append("_");
        push_decimal(&mut s, random as u64);
        s
    }

    /// The identifier of the exit condition wrapping `condition_id`.
    pub fn exit_wrapper(condition_id: &str) -> (r: String)
        ensures
            r@ == seq!['e', 'x', 'i', 't', '_'] + condition_id@,
    {
        proof {
            reveal_strlit("exit_");
        }
        let mut s = owned("exit_");
        s.append(condition_id);
        s
    }

    /// The prefix of entry conditions.
    pub fn entry_prefix() -> (r: &'static str)
        ensures
            r@ == prefix_text(ConditionPrefix::Entry),
    {
        proof {
            reveal_strlit("entry");
        }
        "entry"
    }

    /// The prefix of exit conditions.
    pub fn exit_prefix() -> (r: &'static str)
        ensures
            r@ == prefix_text(ConditionPrefix::Exit),
    {
        proof {
            reveal_strlit("exit");
        }
        "exit"
    }

    /// The prefix of entry conditions if `is_entry`, else that of exit conditions.
    pub fn prefix_for(is_entry: bool) -> (r: &'static str)
        ensures
            r@ == (if is_entry {
                prefix_text(ConditionPrefix::Entry)
            } else {
                prefix_text(ConditionPrefix::Exit)
            }),
    {
        if is_entry {
            Self::entry_prefix()
        } else {
            Self::exit_prefix()
        }
    }

    /// Whether the identifier names an indicator-indicator condition.
    pub fn is_indicator_indicator(condition_id: &str) -> (r: bool)
        ensures
            r == contains_spec(condition_id@, sep_pat()),
    {
        let id = chars_of(condition_id);
        let sep: Vec<char> = vec![':', ':'];
        contains(&id, &sep)
    }

    /// Whether the identifier names a trend condition.
    pub fn is_trend_condition(condition_id: &str) -> (r: bool)
        ensures
            r == (contains_spec(condition_id@, rising_pat()) || contains_spec(condition_id@, falling_pat())),
    {
        let id = chars_of(condition_id);
        let rising: Vec<char> = vec!['_', 'r', 'i', 's', 'i', 'n', 'g', 't', 'r', 'e', 'n', 'd', '_'];
        let falling: Vec<char> = vec!['_', 'f', 'a', 'l', 'l', 'i', 'n', 'g', 't', 'r', 'e', 'n', 'd', '_'];
        contains(&id, &rising) || contains(&id, &falling)
    }

    /// The timeframes on which each indicator alias is required by the
    /// conditions: the primary alias of each condition on its primary
    /// timeframe, and the secondary alias of an indicator-indicator
    /// condition on its secondary timeframe, the base timeframe standing for
    /// one that is absent. Each alias stands once, each of its timeframes once.
    pub fn collect_required_timeframes(conditions: &[ConditionInfo], base_timeframe: &TimeFrame) -> (r: Vec<
        RequiredTimeframes,
    >)
        ensures
            table_well_formed(r@),
            table_pairs(r@) == all_requirements(conditions@, *base_timeframe),
    {
        let mut table: Vec<RequiredTimeframes> = Vec::new();
        assert(table_pairs(table@) =~= Set::empty());
        let mut i: usize = 0;
        while i < conditions.len()
            invariant
                i <= conditions@.len(),
                table_well_formed(table@),
                table_pairs(table@) == all_requirements(conditions@.take(i as int), *base_timeframe),
            decreases conditions@.len() - i,
        {
            let c = &conditions[i];
            let ghost before = table_pairs(table@);
            let tf = match c.primary_timeframe {
                Some(t) => t,
                None => *base_timeframe,
            };
            insert_requirement(&mut table, &c.primary_indicator_alias, tf);
            if is_kind(c.condition_type.as_str(), ConditionKind::IndicatorIndicator) {
                match &c.secondary_indicator_alias {
                    Some(sa) => {
                        let stf = match c.secondary_timeframe {
                            Some(t) => t,
                            None => *base_timeframe,
                        };
                        insert_requirement(&mut table, sa, stf);
                    },
                    None => {},
                }
            }
            proof {
                assert(conditions@.take(i + 1).drop_last() =~= conditions@.take(i as int));
                assert(table_pairs(table@) =~= before.union(condition_requirements(conditions@[i as int], *base_timeframe)));
            }
            i = i + 1;
        }
        assert(conditions@.take(conditions@.len() as int) =~= conditions@);
        table
    }

    /// The prefix of an identifier and the index at which the rest begins.
    fn extract_prefix(id: &Vec<char>) -> (r: Option<(ConditionPrefix, usize)>)
        ensures
            match r {
                Some((p, k)) => split_prefix(id@) == Some((p, id@.skip(k as int))) && k <= id@.len(),
                None => split_prefix(id@) is None,
            },
    {
        let entry: Vec<char> = vec!['e', 'n', 't', 'r', 'y', '_'];
        let exit: Vec<char> = vec!['e', 'x', 'i', 't', '_'];
        let ind_price: Vec<char> = vec!['i', 'n', 'd', '_', 'p', 'r', 'i', 'c', 'e', '_'];
        let ind_const: Vec<char> = vec!['i', 'n', 'd', '_', 'c', 'o', 'n', 's', 't', '_'];
        let ind_ind: Vec<char> = vec!['i', 'n', 'd', '_', 'i', 'n', 'd', '_'];
        assert(entry@ =~= prefix_text(ConditionPrefix::Entry).push('_'));
        assert(exit@ =~= prefix_text(ConditionPrefix::Exit).push('_'));
        assert(ind_price@ =~= prefix_text(ConditionPrefix::IndPrice).push('_'));
        assert(ind_const@ =~= prefix_text(ConditionPrefix::IndConst).push('_'));
        assert(ind_ind@ =~= prefix_text(ConditionPrefix::IndInd).push('_'));
        if starts_with(id, &entry) {
            Some((ConditionPrefix::Entry, 6))
        } else if starts_with(id, &exit) {
            Some((ConditionPrefix::Exit, 5))
        } else if starts_with(id, &ind_price) {
            Some((ConditionPrefix::IndPrice, 10))
        } else if starts_with(id, &ind_const) {
            Some((ConditionPrefix::IndConst, 10))
        } else if starts_with(id, &ind_ind) {
            Some((ConditionPrefix::IndInd, 8))
        } else {
            None
        }
    }

    /// Reads a condition identifier: its prefix, shape and aliases; `None`
    /// when it has no known prefix or lacks the underscore that ends an alias.
    pub fn parse(condition_id: &str) -> (r: Option<ParsedConditionId>)
        ensures
            match r {
                Some(p) => parse_spec(condition_id@) == Some(p@),
                None => parse_spec(condition_id@) is None,
            },
    {
        let id = chars_of(condition_id);
        let (prefix, k) = match Self::extract_prefix(&id) {
            Some(pk) => pk,
            None => {
                return None;
            },
        };
        let ghost rest_s = id@.skip(k as int);
        let mut rest: Vec<char> = Vec::new();
        let mut i: usize = k;
        while i < id.len()
            invariant
                k <= i <= id@.len(),
                rest@ == id@.subrange(k as int, i as int),
            decreases id@.len() - i,
        {
            rest.push(id[i]);
            i = i + 1;
        }
        assert(rest@ =~= rest_s);
        let sep: Vec<char> = vec![':', ':'];
        assert(sep@ =~= sep_pat());
        match find(&rest, &sep) {
            Some(p) => {
                let ghost after = rest@.skip(p + 2);
                let mut after_v: Vec<char> = Vec::new();
                let mut j: usize = p + 2;
                while j < rest.len()
                    invariant
                        p + 2 <= j <= rest@.len(),
                        after_v@ == rest@.subrange(p + 2, j as int),
                    decreases rest@.len() - j,
                {
                    after_v.push(rest[j]);
                    j = j + 1;
                }
                assert(after_v@ =~= after);
                match rfind_char(&after_v, '_') {
                    Some(u) => {
                        let primary = substring(condition_id, k, k + p);
                        let secondary = substring(condition_id, k + p + 2, k + p + 2 + u);
                        assert(primary@ =~= rest@.take(p as int));
                        assert(secondary@ =~= after.take(u as int));
                        return Some(ParsedConditionId {
                            prefix,
                            condition_type: ConditionIdType::IndicatorIndicator,
                            primary_alias: primary,
                            secondary_alias: Some(secondary),
                            trend_type: None,
                        });
                    },
                    None => {
                        return None;
                    },
                }
            },
            None => {},
        }
        let rising: Vec<char> = vec!['_', 'r', 'i', 's', 'i', 'n', 'g', 't', 'r', 'e', 'n', 'd', '_'];
        assert(rising@ =~= rising_pat());
        match find(&rest, &rising) {
            Some(p) => {
                let primary = substring(condition_id, k, k + p);
                assert(primary@ =~= rest@.take(p as int));
                return Some(ParsedConditionId {
                    prefix,
                    condition_type: ConditionIdType::TrendCondition,
                    primary_alias: primary,
                    secondary_alias: None,
                    trend_type: Some(TrendType::Rising),
                });
            },
            None => {},
        }
        let falling: Vec<char> = vec!['_', 'f', 'a', 'l', 'l', 'i', 'n', 'g', 't', 'r', 'e', 'n', 'd', '_'];
        assert(falling@ =~= falling_pat());
        match find(&rest, &falling) {
            Some(p) => {
                let primary = substring(condition_id, k, k + p);
                assert(primary@ =~= rest@.take(p as int));
                return Some(ParsedConditionId {
                    prefix,
                    condition_type: ConditionIdType::TrendCondition,
                    primary_alias: primary,
                    secondary_alias: None,
                    trend_type: Some(TrendType::Falling),
                });
            },
            None => {},
        }
        match rfind_char(&rest, '_') {
            Some(u) => {
                let primary = substring(condition_id, k, k + u);
                assert(primary@ =~= rest@.take(u as int));
                Some(ParsedConditionId {
                    prefix,
                    condition_type: ConditionIdType::Simple,
                    primary_alias: primary,
                    secondary_alias: None,
                    trend_type: None,
                })
            },
            None => None,
        }
    }
}

} // verus!

verus! {

/// An identifier made of a known prefix, an underscore and a tail is split
/// into that prefix and that tail.
pub proof fn lemma_split_prefix(p: ConditionPrefix, tail: Seq<char>)
    ensures
        split_prefix(prefix_text(p) + seq!['_'] + tail) == Some((p, tail)),
{
    let id = prefix_text(p) + seq!['_'] + tail;
    let head = prefix_text(p).push('_');
    assert(id.subrange(0, head.len() as int) =~= head);
    assert(id.skip(head.len() as int) =~= tail);
    let e = prefix_text(ConditionPrefix::Entry).push('_');
    let x = prefix_text(ConditionPrefix::Exit).push('_');
    let ip = prefix_text(ConditionPrefix::IndPrice).push('_');
    let ic = prefix_text(ConditionPrefix::IndConst).push('_');
    match p {
        ConditionPrefix::Entry => {},
        ConditionPrefix::Exit => {
            assert(id[1] == 'x');
            if id.len() >= e.len() {
                assert(!(id.subrange(0, e.len() as int) =~= e)) by {
                    assert(id.subrange(0, e.len() as int)[1] != e[1]);
                }
            }
        },
        ConditionPrefix::IndPrice => {
            assert(id[0] == 'i');
            assert(!(id.subrange(0, e.len() as int) =~= e)) by {
                assert(id.subrange(0, e.len() as int)[0] != e[0]);
            }
            assert(!(id.subrange(0, x.len() as int) =~= x)) by {
                assert(id.subrange(0, x.len() as int)[0] != x[0]);
            }
        },
        ConditionPrefix::IndConst => {
            assert(id[0] == 'i');
            assert(id[4] == 'c');
            assert(!(id.subrange(0, e.len() as int) =~= e)) by {
                assert(id.subrange(0, e.len() as int)[0] != e[0]);
            }
            assert(!(id.subrange(0, x.len() as int) =~= x)) by {
                assert(id.subrange(0, x.len() as int)[0] != x[0]);
            }
            assert(!(id.subrange(0, ip.len() as int) =~= ip)) by {
                assert(id.subrange(0, ip.len() as int)[4] != ip[4]);
            }
        },
        ConditionPrefix::IndInd => {
            assert(id[0] == 'i');
            assert(id[4] == 'i');
            assert(!(id.subrange(0, e.len() as int) =~= e)) by {
                assert(id.subrange(0, e.len() as int)[0] != e[0]);
            }
            assert(!(id.subrange(0, x.len() as int) =~= x)) by {
                assert(id.subrange(0, x.len() as int)[0] != x[0]);
            }
            if id.len() >= ip.len() {
                assert(!(id.subrange(0, ip.len() as int) =~= ip)) by {
                    assert(id.subrange(0, ip.len() as int)[4] != ip[4]);
                }
            }
            if id.len() >= ic.len() {
                assert(!(id.subrange(0, ic.len() as int) =~= ic)) by {
                    assert(id.subrange(0, ic.len() as int)[4] != ic[4]);
                }
            }
        },
    }
}

/// The reading of an identifier made of a known prefix and a tail is the
/// reading of that tail.
pub proof fn lemma_parse_parts(p: ConditionPrefix, tail: Seq<char>)
    ensures
        parse_spec(prefix_text(p) + seq!['_'] + tail) == parse_rest(p, tail),
{
    lemma_split_prefix(p, tail);
}

/// Reading back the identifier of an indicator-price or indicator-constant
/// condition gives the prefix and alias it was made of, as a simple
/// condition, for every alias that does not, with an underscore appended,
/// hold `::` or a trend marker.
pub proof fn law_simple_id_roundtrip(p: ConditionPrefix, alias: Seq<char>, random: u32)
    requires
        find_spec(alias.push('_'), sep_pat()) is None,
        find_spec(alias.push('_'), rising_pat()) is None,
        find_spec(alias.push('_'), falling_pat()) is None,
    ensures
        parse_spec(prefix_text(p) + seq!['_'] + alias + seq!['_'] + decimal(random as nat)) == Some(
            ParsedConditionIdView {
                prefix: p,
                condition_type: ConditionIdType::Simple,
                primary_alias: alias,
                secondary_alias: None,
                trend_type: None,
            },
        ),
{
    let d = decimal(random as nat);
    let rest = alias.push('_') + d;
    assert(prefix_text(p) + seq!['_'] + alias + seq!['_'] + d =~= prefix_text(p) + seq!['_'] + rest);
    lemma_split_prefix(p, rest);
    lemma_parse_parts(p, rest);
    lemma_decimal_digits(random as nat);
    lemma_no_occurrence_before_digits(alias.push('_'), d, sep_pat());
    lemma_no_occurrence_before_digits(alias.push('_'), d, rising_pat());
    lemma_no_occurrence_before_digits(alias.push('_'), d, falling_pat());
    lemma_last_underscore_before_digits(alias, d);
    assert(rest.take(alias.len() as int) =~= alias);
}

/// Reading back the identifier of an indicator-indicator condition gives the
/// prefix and both aliases it was made of, for every primary alias that
/// does not, with a colon appended, hold `::`.
#[verifier::rlimit(40)]
pub proof fn law_indicator_indicator_id_roundtrip(
    p: ConditionPrefix,
    primary: Seq<char>,
    secondary: Seq<char>,
    random: u32,
)
    requires
        find_spec(primary.push(':'), sep_pat()) is None,
    ensures
        parse_spec(
            prefix_text(p) + seq!['_'] + primary + sep_pat() + secondary + seq!['_'] + decimal(
                random as nat,
            ),
        ) == Some(
            ParsedConditionIdView {
                prefix: p,
                condition_type: ConditionIdType::IndicatorIndicator,
                primary_alias: primary,
                secondary_alias: Some(secondary),
                trend_type: None,
            },
        ),
{
    let d = decimal(random as nat);
    let after = secondary.push('_') + d;
    let rest = primary + sep_pat() + after;
    assert(prefix_text(p) + seq!['_'] + primary + sep_pat() + secondary + seq!['_'] + d
        =~= prefix_text(p) + seq!['_'] + rest);
    lemma_split_prefix(p, rest);
    lemma_parse_parts(p, rest);
    lemma_decimal_digits(random as nat);
    // the first `::` is the one after the primary alias
    lemma_find_none(primary.push(':'), sep_pat());
    assert(occurs_at(rest, sep_pat(), primary.len() as int)) by {
        assert(rest.subrange(primary.len() as int, primary.len() + 2int) =~= sep_pat());
    }
    assert forall|k: int| 0 <= k < primary.len() implies !#[trigger] occurs_at(rest, sep_pat(), k) by {
        if occurs_at(rest, sep_pat(), k) {
            let pc = primary.push(':');
            assert(pc.subrange(k, k + 2) =~= rest.subrange(k, k + 2));
            assert(occurs_at(pc, sep_pat(), k));
        }
    }
    lemma_find_from(rest, sep_pat(), 0);
    let f = find_spec(rest, sep_pat());
    assert(f == Some(primary.len() as int)) by {
        match f {
            Some(j) => {
                if j < primary.len() {
                } else if j > primary.len() {
                    assert(!occurs_at(rest, sep_pat(), primary.len() as int));
                }
            },
            None => {},
        }
    }
    assert(rest.skip(primary.len() + 2int) =~= after);
    lemma_last_underscore_before_digits(secondary, d);
    assert(rest.take(primary.len() as int) =~= primary);
    assert(after.take(secondary.len() as int) =~= secondary);
}

/// The marker of a trend in identifiers: the trend's word between
/// underscores.
pub open spec fn trend_marker(t: TrendType) -> Seq<char> {
    match t {
        TrendType::Rising => rising_pat(),
        TrendType::Falling => falling_pat(),
    }
}

proof fn lemma_trend_rest(p: ConditionPrefix, alias: Seq<char>, t: TrendType, d: Seq<char>)
    requires
        find_spec(alias + trend_marker(t), sep_pat()) is None,
        t == TrendType::Rising ==> find_spec(alias + rising_pat(), rising_pat()) == Some(alias.len() as int),
        t == TrendType::Falling ==> find_spec(alias + falling_pat(), rising_pat()) is None,
        t == TrendType::Falling ==> find_spec(alias + falling_pat(), falling_pat()) == Some(alias.len() as int),
        forall|i: int| 0 <= i < d.len() ==> crate::text::is_digit(#[trigger] d[i]),
    ensures
        parse_rest(p, alias + trend_marker(t) + d) == Some(
            ParsedConditionIdView {
                prefix: p,
                condition_type: ConditionIdType::TrendCondition,
                primary_alias: alias,
                secondary_alias: None,
                trend_type: Some(t),
            },
        ),
{
    let a = alias + trend_marker(t);
    let rest = a + d;
    lemma_no_occurrence_before_digits(a, d, sep_pat());
    if t == TrendType::Rising {
        lemma_first_occurrence_before_digits(a, d, rising_pat(), alias.len() as int);
    } else {
        lemma_no_occurrence_before_digits(a, d, rising_pat());
        lemma_first_occurrence_before_digits(a, d, falling_pat(), alias.len() as int);
    }
    assert(rest.take(alias.len() as int) =~= alias);
}

/// Reading back the identifier of a trend condition gives the prefix, the
/// alias and the trend it was made of, for every alias after which the
/// marker is the first marker that reading looks for (for a falling trend,
/// no rising marker either) and which, followed by the marker, holds no
/// `::`.
#[verifier::spinoff_prover]
#[verifier::rlimit(30)]
pub proof fn law_trend_id_roundtrip(p: ConditionPrefix, alias: Seq<char>, t: TrendType, random: u32)
    requires
        find_spec(alias + trend_marker(t), sep_pat()) is None,
        t == TrendType::Rising ==> find_spec(alias + rising_pat(), rising_pat()) == Some(alias.len() as int),
        t == TrendType::Falling ==> find_spec(alias + falling_pat(), rising_pat()) is None,
        t == TrendType::Falling ==> find_spec(alias + falling_pat(), falling_pat()) == Some(alias.len() as int),
    ensures
        parse_spec(prefix_text(p) + seq!['_'] + alias + seq!['_'] + trend_text(t) + seq!['_'] + decimal(random as nat))
            == Some(
            ParsedConditionIdView {
                prefix: p,
                condition_type: ConditionIdType::TrendCondition,
                primary_alias: alias,
                secondary_alias: None,
                trend_type: Some(t),
            },
        ),
{
    let d = decimal(random as nat);
    let m = trend_marker(t);
    let l = prefix_text(p) + seq!['_'];
    let rest = alias + m + d;
    assert(seq!['_'] + trend_text(t) + seq!['_'] =~= m) by {
        match t {
            TrendType::Rising => {},
            TrendType::Falling => {},
        }
    }
    assert(l + alias + seq!['_'] + trend_text(t) + seq!['_'] =~= l + (alias + m)) by {
        let w = seq!['_'] + trend_text(t) + seq!['_'];
        assert(l + alias + seq!['_'] + trend_text(t) + seq!['_'] =~= (l + alias) + w);
        assert((l + alias) + w =~= l + (alias + w));
    }
    assert(l + (alias + m) + d =~= l + rest);
    lemma_parse_parts(p, rest);
    lemma_decimal_digits(random as nat);
    lemma_trend_rest(p, alias, t, d);
}


proof fn lemma_marker_chars(t: TrendType, i: int)
    requires
        0 <= i < trend_marker(t).len(),
    ensures
        trend_marker(t) == seq!['_'] + trend_text(t) + seq!['_'],
        trend_marker(t)[i] != ':',
        trend_marker(t)[i] == '_' <==> (i == 0 || i == trend_marker(t).len() - 1),
        trend_marker(t).len() == trend_text(t).len() + 2,
{
    assert(trend_marker(t) =~= seq!['_'] + trend_text(t) + seq!['_']);
}

/// A trend marker found in `a + m` that ends within `a` plus one character
/// puts the trend's name inside `a`.
proof fn lemma_name_inside(a: Seq<char>, m: Seq<char>, t: TrendType, k: int)
    requires
        occurs_at(a + m, trend_marker(t), k),
        k + trend_marker(t).len() - 1 <= a.len(),
    ensures
        occurs_at(a, trend_text(t), k + 1),
{
    let s = a + m;
    let pat = trend_marker(t);
    let name = trend_text(t);
    lemma_marker_chars(t, 0);
    assert(s.subrange(k, k + pat.len()) =~= pat);
    assert forall|j: int| 0 <= j < name.len() implies #[trigger] a[k + 1 + j] == name[j] by {
        assert(s[k + 1 + j] == pat[1 + j]);
        assert(pat[1 + j] == name[j]);
    }
    assert(a.subrange(k + 1, k + 1 + name.len()) =~= name);
}

/// A text without colons followed by a text without colons holds no `::`.
proof fn lemma_no_sep(a: Seq<char>, m: Seq<char>)
    requires
        !a.contains(':'),
        forall|i: int| 0 <= i < m.len() ==> #[trigger] m[i] != ':',
    ensures
        find_spec(a + m, sep_pat()) is None,
{
    let s = a + m;
    lemma_find_none(s, sep_pat());
    assert forall|k: int| 0 <= k implies !#[trigger] occurs_at(s, sep_pat(), k) by {
        if occurs_at(s, sep_pat(), k) {
            assert(s.subrange(k, k + 2)[0] == s[k]);
            if k < a.len() {
                assert(a[k] == ':');
                assert(a.contains(':'));
            } else {
                assert(m[k - a.len()] == ':');
            }
        }
    }
}

proof fn lemma_simple_premises(a: Seq<char>)
    requires
        !a.contains(':'),
        !contains_spec(a, trend_text(TrendType::Rising)),
        !contains_spec(a, trend_text(TrendType::Falling)),
    ensures
        find_spec(a.push('_'), sep_pat()) is None,
        find_spec(a.push('_'), rising_pat()) is None,
        find_spec(a.push('_'), falling_pat()) is None,
{
    lemma_find_none(a, trend_text(TrendType::Rising));
    lemma_find_none(a, trend_text(TrendType::Falling));
    let u = seq!['_'];
    assert(a.push('_') =~= a + u);
    lemma_no_sep(a, u);
    lemma_find_none(a + u, rising_pat());
    lemma_find_none(a + u, falling_pat());
    assert forall|k: int| 0 <= k implies !#[trigger] occurs_at(a + u, rising_pat(), k) by {
        if occurs_at(a + u, rising_pat(), k) {
            lemma_name_inside(a, u, TrendType::Rising, k);
        }
    }
    assert forall|k: int| 0 <= k implies !#[trigger] occurs_at(a + u, falling_pat(), k) by {
        if occurs_at(a + u, falling_pat(), k) {
            lemma_name_inside(a, u, TrendType::Falling, k);
        }
    }
}

proof fn lemma_pair_premise(a: Seq<char>)
    requires
        !a.contains(':'),
    ensures
        find_spec(a.push(':'), sep_pat()) is None,
{
    let c = seq![':'];
    assert(a.push(':') =~= a + c);
    lemma_find_none(a + c, sep_pat());
    assert forall|k: int| 0 <= k implies !#[trigger] occurs_at(a + c, sep_pat(), k) by {
        if occurs_at(a + c, sep_pat(), k) {
            assert((a + c).subrange(k, k + 2)[0] == (a + c)[k]);
            assert(a[k] == ':');
            assert(a.contains(':'));
        }
    }
}

proof fn lemma_trend_premises(a: Seq<char>, t: TrendType)
    requires
        !a.contains(':'),
        !contains_spec(a, trend_text(TrendType::Rising)),
        !contains_spec(a, trend_text(TrendType::Falling)),
    ensures
        find_spec(a + trend_marker(t), sep_pat()) is None,
        t == TrendType::Rising ==> find_spec(a + rising_pat(), rising_pat()) == Some(a.len() as int),
        t == TrendType::Falling ==> find_spec(a + falling_pat(), rising_pat()) is None,
        t == TrendType::Falling ==> find_spec(a + falling_pat(), falling_pat()) == Some(a.len() as int),
{
    let m = trend_marker(t);
    assert forall|i: int| 0 <= i < m.len() implies #[trigger] m[i] != ':' by {
        lemma_marker_chars(t, i);
    }
    lemma_no_sep(a, m);
    if t == TrendType::Rising {
        lemma_rising_first(a);
    } else {
        lemma_falling_first(a);
        lemma_no_rising_in_falling(a);
    }
}

proof fn lemma_rising_first(a: Seq<char>)
    requires
        !contains_spec(a, trend_text(TrendType::Rising)),
    ensures
        find_spec(a + rising_pat(), rising_pat()) == Some(a.len() as int),
{
    let n = a.len() as int;
    let t = TrendType::Rising;
    lemma_find_none(a, trend_text(t));
    let s = a + rising_pat();
    lemma_marker_chars(t, 0);
    assert(occurs_at(s, rising_pat(), n)) by {
        assert(s.subrange(n, n + 13) =~= rising_pat());
    }
    assert forall|k: int| 0 <= k < n implies !#[trigger] occurs_at(s, rising_pat(), k) by {
        if occurs_at(s, rising_pat(), k) {
            if k + 12 <= n {
                lemma_name_inside(a, rising_pat(), t, k);
            } else {
                assert(s.subrange(k, k + 13)[n - k] == s[n]);
                lemma_marker_chars(t, n - k);
            }
        }
    }
    lemma_find_from(s, rising_pat(), 0);
    match find_spec(s, rising_pat()) {
        Some(j) => {
            if j < n {
                assert(occurs_at(s, rising_pat(), j));
            } else if j > n {
                assert(!occurs_at(s, rising_pat(), n));
            }
        },
        None => {
            assert(!occurs_at(s, rising_pat(), n));
        },
    }
}

proof fn lemma_falling_first(a: Seq<char>)
    requires
        !contains_spec(a, trend_text(TrendType::Falling)),
    ensures
        find_spec(a + falling_pat(), falling_pat()) == Some(a.len() as int),
{
    let n = a.len() as int;
    let t = TrendType::Falling;
    lemma_find_none(a, trend_text(t));
    let s = a + falling_pat();
    lemma_marker_chars(t, 0);
    assert(occurs_at(s, falling_pat(), n)) by {
        assert(s.subrange(n, n + 14) =~= falling_pat());
    }
    assert forall|k: int| 0 <= k < n implies !#[trigger] occurs_at(s, falling_pat(), k) by {
        if occurs_at(s, falling_pat(), k) {
            if k + 13 <= n {
                lemma_name_inside(a, falling_pat(), t, k);
            } else {
                assert(s.subrange(k, k + 14)[n - k] == s[n]);
                lemma_marker_chars(t, n - k);
            }
        }
    }
    lemma_find_from(s, falling_pat(), 0);
    match find_spec(s, falling_pat()) {
        Some(j) => {
            if j < n {
                assert(occurs_at(s, falling_pat(), j));
            } else if j > n {
                assert(!occurs_at(s, falling_pat(), n));
            }
        },
        None => {
            assert(!occurs_at(s, falling_pat(), n));
        },
    }
}

proof fn lemma_no_rising_in_falling(a: Seq<char>)
    requires
        !contains_spec(a, trend_text(TrendType::Rising)),
    ensures
        find_spec(a + falling_pat(), rising_pat()) is None,
{
    let n = a.len() as int;
    lemma_find_none(a, trend_text(TrendType::Rising));
    let s = a + falling_pat();
    lemma_find_none(s, rising_pat());
    lemma_marker_chars(TrendType::Falling, 0);
    assert forall|k: int| 0 <= k implies !#[trigger] occurs_at(s, rising_pat(), k) by {
        if occurs_at(s, rising_pat(), k) {
            let w = s.subrange(k, k + 13);
            if k + 12 <= n {
                lemma_name_inside(a, falling_pat(), TrendType::Rising, k);
            } else if k <= n {
                lemma_marker_chars(TrendType::Rising, n - k);
                assert(w[n - k] == s[n]);
                if k == n {
                    assert(w[1] == s[n + 1]);
                    lemma_marker_chars(TrendType::Falling, 1);
                    lemma_marker_chars(TrendType::Rising, 1);
                }
            } else {
                assert(w[0] == s[k]);
                lemma_marker_chars(TrendType::Rising, 0);
                lemma_marker_chars(TrendType::Falling, k - n);
            }
        }
    }
}

/// An identifier made from a prefix, an alias without colons and without
/// a trend's name, and its other parts reads back as what it was made of:
/// that of an indicator-price or indicator-constant condition as a simple
/// condition of that alias, that of an indicator-indicator condition with
/// both aliases, and that of a trend condition with the alias and the trend.
pub proof fn law_condition_id_roundtrip(p: ConditionPrefix, a: Seq<char>, b: Seq<char>, t: TrendType, random: u32)
    requires
        !a.contains(':'),
        !contains_spec(a, trend_text(TrendType::Rising)),
        !contains_spec(a, trend_text(TrendType::Falling)),
    ensures
        parse_spec(prefix_text(p) + seq!['_'] + a + seq!['_'] + decimal(random as nat)) == Some(
            ParsedConditionIdView {
                prefix: p,
                condition_type: ConditionIdType::Simple,
                primary_alias: a,
                secondary_alias: None,
                trend_type: None,
            },
        ),
        parse_spec(prefix_text(p) + seq!['_'] + a + sep_pat() + b + seq!['_'] + decimal(random as nat)) == Some(
            ParsedConditionIdView {
                prefix: p,
                condition_type: ConditionIdType::IndicatorIndicator,
                primary_alias: a,
                secondary_alias: Some(b),
                trend_type: None,
            },
        ),
        parse_spec(prefix_text(p) + seq!['_'] + a + seq!['_'] + trend_text(t) + seq!['_'] + decimal(random as nat))
            == Some(
            ParsedConditionIdView {
                prefix: p,
                condition_type: ConditionIdType::TrendCondition,
                primary_alias: a,
                secondary_alias: None,
                trend_type: Some(t),
            },
        ),
{
    lemma_simple_premises(a);
    law_simple_id_roundtrip(p, a, random);
    lemma_pair_premise(a);
    law_indicator_indicator_id_roundtrip(p, a, b, random);
    lemma_trend_premises(a, t);
    law_trend_id_roundtrip(p, a, t, random);
}

/// What the timeframe analysis reads of a condition: its identifier and
/// type, its timeframes and the aliases of its indicators.
pub trait ConditionInfoTrait {
    fn condition_id(&self) -> &str;

    fn condition_type(&self) -> &str;

    fn primary_timeframe(&self) -> Option<&TimeFrame>;

    fn secondary_timeframe(&self) -> Option<&TimeFrame>;

    fn primary_indicator_alias(&self) -> Option<String>;

    fn secondary_indicator_alias(&self) -> Option<String>;
}

impl ConditionInfoTrait for ConditionInfo {
    fn condition_id(&self) -> (r: &str)
        ensures
            r@ == self.id@,
    {
        self.id.as_str()
    }

    fn condition_type(&self) -> (r: &str)
        ensures
            r@ == self.condition_type@,
    {
        self.condition_type.as_str()
    }

    fn primary_timeframe(&self) -> (r: Option<&TimeFrame>)
        ensures
            match r {
                Some(t) => self.primary_timeframe == Some(*t),
                None => self.primary_timeframe is None,
            },
    {
        match &self.primary_timeframe {
            Some(t) => Some(t),
            None => None,
        }
    }

    fn secondary_timeframe(&self) -> (r: Option<&TimeFrame>)
        ensures
            match r {
                Some(t) => self.secondary_timeframe == Some(*t),
                None => self.secondary_timeframe is None,
            },
    {
        match &self.secondary_timeframe {
            Some(t) => Some(t),
            None => None,
        }
    }

    fn primary_indicator_alias(&self) -> (r: Option<String>)
        ensures
            r matches Some(a) && a@ == self.primary_indicator_alias@,
    {
        Some(self.primary_indicator_alias.clone())
    }

    fn secondary_indicator_alias(&self) -> (r: Option<String>)
        ensures
            match r {
                Some(a) => self.secondary_indicator_alias matches Some(b) && a@ == b@,
                None => self.secondary_indicator_alias is None,
            },
    {
        match &self.secondary_indicator_alias {
            Some(b) => Some(b.clone()),
            None => None,
        }
    }
}

/// Every condition's requirements are among those gathered for a list
/// holding it: its primary alias on its own primary timeframe (the base
/// one if it has none), and, for an indicator-indicator condition with a
/// secondary alias, that alias on the condition's own secondary timeframe
/// (the base one if it has none), whatever the primary timeframe is.
pub proof fn law_requirements_cover_each_condition(cs: Seq<ConditionInfo>, base: TimeFrame, k: int)
    requires
        0 <= k < cs.len(),
    ensures
        all_requirements(cs, base).contains(
            (
                cs[k].primary_indicator_alias@,
                match cs[k].primary_timeframe {
                    Some(tf) => tf,
                    None => base,
                },
            ),
        ),
        cs[k].condition_type@ == indicator_indicator_text() && cs[k].secondary_indicator_alias is Some
            ==> all_requirements(cs, base).contains(
            (
                cs[k].secondary_indicator_alias->0@,
                match cs[k].secondary_timeframe {
                    Some(tf) => tf,
                    None => base,
                },
            ),
        ),
    decreases cs.len(),
{
    if k < cs.len() - 1 {
        law_requirements_cover_each_condition(cs.drop_last(), base, k);
        assert(cs.drop_last()[k] == cs[k]);
    } else {
        assert(cs.last() == cs[k]);
    }
}

/// Every gathered requirement comes from some condition of the list: it is
/// the primary alias of a condition on that condition's primary timeframe
/// (or the base one), or the secondary alias of an indicator-indicator
/// condition on that condition's secondary timeframe (or the base one).
pub proof fn law_requirements_come_from_conditions(cs: Seq<ConditionInfo>, base: TimeFrame, p: (Seq<char>, TimeFrame))
    requires
        all_requirements(cs, base).contains(p),
    ensures
        exists|k: int| 0 <= k < cs.len() && #[trigger] condition_requirements(cs[k], base).contains(p),
    decreases cs.len(),
{
    if cs.len() > 0 {
        if condition_requirements(cs.last(), base).contains(p) {
            assert(condition_requirements(cs[cs.len() - 1], base).contains(p));
        } else {
            law_requirements_come_from_conditions(cs.drop_last(), base, p);
            let k = choose|k: int| 0 <= k < cs.drop_last().len() && #[trigger] condition_requirements(cs.drop_last()[k], base).contains(p);
            assert(cs.drop_last()[k] == cs[k]);
        }
    }
}

} // verus!
