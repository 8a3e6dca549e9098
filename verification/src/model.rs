//! The data model of strategy candidates and evaluated individuals.
//!
//! Numbers that are floating point elsewhere are carried here as integers:
//! a fitness as an order key (larger key, fitter individual; the key of a
//! fitness of zero is 0), a condition's constant by its bit pattern, and a
//! parameter value by its rendered text.

use vstd::prelude::*;
use crate::text::{decimal, decimal_string, text_is};

verus! {

/// A bar timeframe, measured in minutes.
#[derive(Clone, Copy, Debug, PartialEq, Eq, Structural, Hash)]
pub struct TimeFrame {
    pub minutes: u32,
}

impl TimeFrame {
    /// The timeframe of `minutes` minutes.
    pub fn from_minutes(minutes: u32) -> (r: TimeFrame)
        ensures
            r.minutes == minutes,
    {
        TimeFrame { minutes }
    }

    /// The length of a bar, in minutes.
    pub fn duration(&self) -> (r: u32)
        ensures
            r == self.minutes,
    {
        self.minutes
    }

    /// The identifier of the timeframe: its minutes in decimal.
    pub fn identifier(&self) -> (r: String)
        ensures
            r@ == decimal(self.minutes as nat),
    {
        decimal_string(self.minutes as u64)
    }
}

/// The operator of a trading condition.
#[derive(Clone, Copy, Debug, PartialEq, Eq, Structural, Hash)]
pub enum ConditionOperator {
    Above,
    Below,
    CrossesAbove,
    CrossesBelow,
    GreaterPercent,
    LowerPercent,
    RisingTrend,
    FallingTrend,
    GreaterThan,
    LessThan,
    Between,
}

/// The operator that states the reverse of `op`; `Between` has none and
/// stays itself.
pub open spec fn opposite_spec(op: ConditionOperator) -> ConditionOperator {
    match op {
        ConditionOperator::Above => ConditionOperator::Below,
        ConditionOperator::Below => ConditionOperator::Above,
        ConditionOperator::CrossesAbove => ConditionOperator::CrossesBelow,
        ConditionOperator::CrossesBelow => ConditionOperator::CrossesAbove,
        ConditionOperator::GreaterPercent => ConditionOperator::LowerPercent,
        ConditionOperator::LowerPercent => ConditionOperator::GreaterPercent,
        ConditionOperator::RisingTrend => ConditionOperator::FallingTrend,
        ConditionOperator::FallingTrend => ConditionOperator::RisingTrend,
        ConditionOperator::GreaterThan => ConditionOperator::LessThan,
        ConditionOperator::LessThan => ConditionOperator::GreaterThan,
        ConditionOperator::Between => ConditionOperator::Between,
    }
}

/// Flipping an operator twice gives it back.
pub proof fn law_opposite_involution(op: ConditionOperator)
    ensures
        opposite_spec(opposite_spec(op)) == op,
{
}

/// The name of an operator, as it is written in signatures.
pub open spec fn operator_name(op: ConditionOperator) -> Seq<char> {
    match op {
        ConditionOperator::Above => seq!['A', 'b', 'o', 'v', 'e'],
        ConditionOperator::Below => seq!['B', 'e', 'l', 'o', 'w'],
        ConditionOperator::CrossesAbove => seq!['C', 'r', 'o', 's', 's', 'e', 's', 'A', 'b', 'o', 'v', 'e'],
        ConditionOperator::CrossesBelow => seq!['C', 'r', 'o', 's', 's', 'e', 's', 'B', 'e', 'l', 'o', 'w'],
        ConditionOperator::GreaterPercent => seq!['G', 'r', 'e', 'a', 't', 'e', 'r', 'P', 'e', 'r', 'c', 'e', 'n', 't'],
        ConditionOperator::LowerPercent => seq!['L', 'o', 'w', 'e', 'r', 'P', 'e', 'r', 'c', 'e', 'n', 't'],
        ConditionOperator::RisingTrend => seq!['R', 'i', 's', 'i', 'n', 'g', 'T', 'r', 'e', 'n', 'd'],
        ConditionOperator::FallingTrend => seq!['F', 'a', 'l', 'l', 'i', 'n', 'g', 'T', 'r', 'e', 'n', 'd'],
        ConditionOperator::GreaterThan => seq!['G', 'r', 'e', 'a', 't', 'e', 'r', 'T', 'h', 'a', 'n'],
        ConditionOperator::LessThan => seq!['L', 'e', 's', 's', 'T', 'h', 'a', 'n'],
        ConditionOperator::Between => seq!['B', 'e', 't', 'w', 'e', 'e', 'n'],
    }
}

impl ConditionOperator {
    /// The operator that states the reverse of this one.
    pub fn opposite(&self) -> (r: ConditionOperator)
        ensures
            r == opposite_spec(*self),
    {
        match self {
            ConditionOperator::Above => ConditionOperator::Below,
            ConditionOperator::Below => ConditionOperator::Above,
            ConditionOperator::CrossesAbove => ConditionOperator::CrossesBelow,
            ConditionOperator::CrossesBelow => ConditionOperator::CrossesAbove,
            ConditionOperator::GreaterPercent => ConditionOperator::LowerPercent,
            ConditionOperator::LowerPercent => ConditionOperator::GreaterPercent,
            ConditionOperator::RisingTrend => ConditionOperator::FallingTrend,
            ConditionOperator::FallingTrend => ConditionOperator::RisingTrend,
            ConditionOperator::GreaterThan => ConditionOperator::LessThan,
            ConditionOperator::LessThan => ConditionOperator::GreaterThan,
            ConditionOperator::Between => ConditionOperator::Between,
        }
    }

    /// The name of the operator, as it is written in signatures.
    pub fn name(&self) -> (r: &'static str)
        ensures
            r@ == operator_name(*self),
    {
        proof {
            reveal_strlit("Above");
            reveal_strlit("Below");
            reveal_strlit("CrossesAbove");
            reveal_strlit("CrossesBelow");
            reveal_strlit("GreaterPercent");
            reveal_strlit("LowerPercent");
            reveal_strlit("RisingTrend");
            reveal_strlit("FallingTrend");
            reveal_strlit("GreaterThan");
            reveal_strlit("LessThan");
            reveal_strlit("Between");
        }
        match self {
            ConditionOperator::Above => "Above",
            ConditionOperator::Below => "Below",
            ConditionOperator::CrossesAbove => "CrossesAbove",
            ConditionOperator::CrossesBelow => "CrossesBelow",
            ConditionOperator::GreaterPercent => "GreaterPercent",
            ConditionOperator::LowerPercent => "LowerPercent",
            ConditionOperator::RisingTrend => "RisingTrend",
            ConditionOperator::FallingTrend => "FallingTrend",
            ConditionOperator::GreaterThan => "GreaterThan",
            ConditionOperator::LessThan => "LessThan",
            ConditionOperator::Between => "Between",
        }
    }
}

/// A copy of an optional string.
pub fn clone_opt_string(s: &Option<String>) -> (r: Option<String>)
    ensures
        r == *s,
{
    match s {
        Some(v) => Some(v.clone()),
        None => None,
    }
}

/// Whether two optional strings are both absent or hold the same text.
pub fn opt_string_eq(a: &Option<String>, b: &Option<String>) -> (r: bool)
    ensures
        r == opt_text_eq(*a, *b),
{
    match (a, b) {
        (Some(x), Some(y)) => *x == *y,
        (None, None) => true,
        _ => false,
    }
}

/// Two optional strings are both absent or hold the same text.
pub open spec fn opt_text_eq(a: Option<String>, b: Option<String>) -> bool {
    match (a, b) {
        (Some(x), Some(y)) => x@ == y@,
        (None, None) => true,
        _ => false,
    }
}

/// Whether two optional timeframes are equal.
pub fn opt_timeframe_eq(a: &Option<TimeFrame>, b: &Option<TimeFrame>) -> (r: bool)
    ensures
        r == (*a == *b),
{
    match (a, b) {
        (Some(x), Some(y)) => x.minutes == y.minutes,
        (None, None) => true,
        _ => false,
    }
}

/// An indicator that a candidate uses, under its alias.
pub struct IndicatorInfo {
    pub name: String,
    pub alias: String,
    /// The category: "trend", "oscillator", "volume", "volatility", "channel", ...
    pub indicator_type: String,
    pub can_use_indicator_input: bool,
    pub input_type: String,
}

impl Clone for IndicatorInfo {
    fn clone(&self) -> (r: Self)
        ensures
            r == *self,
    {
        IndicatorInfo {
            name: self.name.clone(),
            alias: self.alias.clone(),
            indicator_type: self.indicator_type.clone(),
            can_use_indicator_input: self.can_use_indicator_input,
            input_type: self.input_type.clone(),
        }
    }
}

/// An indicator computed on the output of another indicator.
pub struct NestedIndicator {
    pub indicator: IndicatorInfo,
    pub input_indicator_alias: String,
    pub depth: usize,
}

impl Clone for NestedIndicator {
    fn clone(&self) -> (r: Self)
        ensures
            r == *self,
    {
        NestedIndicator {
            indicator: self.indicator.clone(),
            input_indicator_alias: self.input_indicator_alias.clone(),
            depth: self.depth,
        }
    }
}

/// A parameter of a condition or handler that the optimizer may vary.
pub struct ConditionParamInfo {
    pub name: String,
    pub optimizable: bool,
    pub mutatable: bool,
    pub global_param_name: Option<String>,
}

impl Clone for ConditionParamInfo {
    fn clone(&self) -> (r: Self)
        ensures
            r == *self,
    {
        ConditionParamInfo {
            name: self.name.clone(),
            optimizable: self.optimizable,
            mutatable: self.mutatable,
            global_param_name: clone_opt_string(&self.global_param_name),
        }
    }
}

/// A condition of a candidate: an operator applied to an indicator and a
/// price field, a second indicator, a constant or the indicator's trend.
pub struct ConditionInfo {
    pub id: String,
    pub name: String,
    pub operator: ConditionOperator,
    /// "indicator_price", "indicator_indicator", "indicator_constant" or "trend_condition".
    pub condition_type: String,
    /// The constant the indicator is compared with (or the condition's
    /// period or percentage), in thousandths.
    pub constant_value: Option<u64>,
    pub primary_indicator_alias: String,
    pub secondary_indicator_alias: Option<String>,
    pub primary_timeframe: Option<TimeFrame>,
    pub secondary_timeframe: Option<TimeFrame>,
    pub price_field: Option<String>,
}

impl Clone for ConditionInfo {
    fn clone(&self) -> (r: Self)
        ensures
            r == *self,
    {
        ConditionInfo {
            id: self.id.clone(),
            name: self.name.clone(),
            operator: self.operator,
            condition_type: self.condition_type.clone(),
            constant_value: self.constant_value,
            primary_indicator_alias: self.primary_indicator_alias.clone(),
            secondary_indicator_alias: clone_opt_string(&self.secondary_indicator_alias),
            primary_timeframe: self.primary_timeframe,
            secondary_timeframe: self.secondary_timeframe,
            price_field: clone_opt_string(&self.price_field),
        }
    }
}

/// The text "trend_condition".
pub open spec fn trend_condition_text() -> Seq<char> {
    seq!['t', 'r', 'e', 'n', 'd', '_', 'c', 'o', 'n', 'd', 'i', 't', 'i', 'o', 'n']
}

/// The text "indicator_indicator".
pub open spec fn indicator_indicator_text() -> Seq<char> {
    seq!['i', 'n', 'd', 'i', 'c', 'a', 't', 'o', 'r', '_', 'i', 'n', 'd', 'i', 'c', 'a', 't', 'o', 'r']
}

/// The text "indicator_price".
pub open spec fn indicator_price_text() -> Seq<char> {
    seq!['i', 'n', 'd', 'i', 'c', 'a', 't', 'o', 'r', '_', 'p', 'r', 'i', 'c', 'e']
}

/// The text "indicator_constant".
pub open spec fn indicator_constant_text() -> Seq<char> {
    seq!['i', 'n', 'd', 'i', 'c', 'a', 't', 'o', 'r', '_', 'c', 'o', 'n', 's', 't', 'a', 'n', 't']
}

/// The text "Close".
pub open spec fn close_text() -> Seq<char> {
    seq!['C', 'l', 'o', 's', 'e']
}

/// The shapes of conditions, by their type names.
#[derive(Clone, Copy, Debug, PartialEq, Eq, Structural)]
pub enum ConditionKind {
    TrendCondition,
    IndicatorIndicator,
    IndicatorPrice,
    IndicatorConstant,
}

/// The type name of a shape of condition.
pub open spec fn kind_text(k: ConditionKind) -> Seq<char> {
    match k {
        ConditionKind::TrendCondition => trend_condition_text(),
        ConditionKind::IndicatorIndicator => indicator_indicator_text(),
        ConditionKind::IndicatorPrice => indicator_price_text(),
        ConditionKind::IndicatorConstant => indicator_constant_text(),
    }
}

/// Whether a text is the type name of the shape `k`.
pub fn is_kind(s: &str, k: ConditionKind) -> (r: bool)
    ensures
        r == (s@ == kind_text(k)),
{
    let pat: Vec<char> = match k {
        ConditionKind::TrendCondition => vec!['t', 'r', 'e', 'n', 'd', '_', 'c', 'o', 'n', 'd', 'i', 't', 'i', 'o', 'n'],
        ConditionKind::IndicatorIndicator => vec!['i', 'n', 'd', 'i', 'c', 'a', 't', 'o', 'r', '_', 'i', 'n', 'd', 'i', 'c', 'a', 't', 'o', 'r'],
        ConditionKind::IndicatorPrice => vec!['i', 'n', 'd', 'i', 'c', 'a', 't', 'o', 'r', '_', 'p', 'r', 'i', 'c', 'e'],
        ConditionKind::IndicatorConstant => vec!['i', 'n', 'd', 'i', 'c', 'a', 't', 'o', 'r', '_', 'c', 'o', 'n', 's', 't', 'a', 'n', 't'],
    };
    assert(pat@ =~= kind_text(k));
    text_is(s, &pat)
}

/// The type name of a shape of condition, as a string.
pub fn kind_string(k: ConditionKind) -> (r: String)
    ensures
        r@ == kind_text(k),
{
    proof {
        reveal_strlit("trend_condition");
        reveal_strlit("indicator_indicator");
        reveal_strlit("indicator_price");
        reveal_strlit("indicator_constant");
    }
    let s = match k {
        ConditionKind::TrendCondition => "trend_condition",
        ConditionKind::IndicatorIndicator => "indicator_indicator",
        ConditionKind::IndicatorPrice => "indicator_price",
        ConditionKind::IndicatorConstant => "indicator_constant",
    };
    crate::text::owned(s)
}

/// The aliases of the indicators that a condition reads: the primary one,
/// then the secondary one if there is one.
pub open spec fn condition_aliases(c: ConditionInfo) -> Seq<Seq<char>> {
    match c.secondary_indicator_alias {
        Some(s) => seq![c.primary_indicator_alias@, s@],
        None => seq![c.primary_indicator_alias@],
    }
}

impl ConditionInfo {
    /// The aliases of the indicators that the condition reads.
    pub fn all_indicator_aliases(&self) -> (r: Vec<String>)
        ensures
            r@.map_values(|s: String| s@) == condition_aliases(*self),
    {
        let mut r: Vec<String> = Vec::new();
        r.push(self.primary_indicator_alias.clone());
        match &self.secondary_indicator_alias {
            Some(s) => {
                r.push(s.clone());
            },
            None => {},
        }
        assert(r@.map_values(|s: String| s@) =~= condition_aliases(*self));
        r
    }
}

/// A stop-loss or take-profit handler chosen for a candidate.
pub struct StopHandlerInfo {
    pub id: String,
    pub name: String,
    pub handler_name: String,
    /// "stop_loss" or "take_profit".
    pub stop_type: String,
    pub optimization_params: Vec<ConditionParamInfo>,
    pub priority: i32,
}

/// The handler with its parameters as a sequence.
pub struct StopHandlerView {
    pub id: String,
    pub name: String,
    pub handler_name: String,
    pub stop_type: String,
    pub optimization_params: Seq<ConditionParamInfo>,
    pub priority: i32,
}

impl View for StopHandlerInfo {
    type V = StopHandlerView;

    open spec fn view(&self) -> StopHandlerView {
        StopHandlerView {
            id: self.id,
            name: self.name,
            handler_name: self.handler_name,
            stop_type: self.stop_type,
            optimization_params: self.optimization_params@,
            priority: self.priority,
        }
    }
}

impl Clone for StopHandlerInfo {
    fn clone(&self) -> (r: Self)
        ensures
            r@ == self@,
    {
        let params = self.optimization_params.clone();
        assert(params@ =~= self.optimization_params@);
        StopHandlerInfo {
            id: self.id.clone(),
            name: self.name.clone(),
            handler_name: self.handler_name.clone(),
            stop_type: self.stop_type.clone(),
            optimization_params: params,
            priority: self.priority,
        }
    }
}

/// A handler that the risk registry offers, with one of its parameters.
pub struct StopHandlerConfig {
    pub handler_name: String,
    pub stop_type: String,
    pub parameter_name: String,
    pub global_param_name: Option<String>,
    pub priority: i32,
}

impl Clone for StopHandlerConfig {
    fn clone(&self) -> (r: Self)
        ensures
            r == *self,
    {
        StopHandlerConfig {
            handler_name: self.handler_name.clone(),
            stop_type: self.stop_type.clone(),
            parameter_name: self.parameter_name.clone(),
            global_param_name: clone_opt_string(&self.global_param_name),
            priority: self.priority,
        }
    }
}

/// The structure of a strategy: its indicators, conditions, handlers and
/// timeframes.
pub struct StrategyCandidate {
    pub indicators: Vec<IndicatorInfo>,
    pub nested_indicators: Vec<NestedIndicator>,
    pub conditions: Vec<ConditionInfo>,
    pub exit_conditions: Vec<ConditionInfo>,
    pub stop_handlers: Vec<StopHandlerInfo>,
    pub take_handlers: Vec<StopHandlerInfo>,
    pub timeframes: Vec<TimeFrame>,
}

/// A candidate with its lists as sequences.
pub struct StrategyCandidateView {
    pub indicators: Seq<IndicatorInfo>,
    pub nested_indicators: Seq<NestedIndicator>,
    pub conditions: Seq<ConditionInfo>,
    pub exit_conditions: Seq<ConditionInfo>,
    pub stop_handlers: Seq<StopHandlerView>,
    pub take_handlers: Seq<StopHandlerView>,
    pub timeframes: Seq<TimeFrame>,
}

impl View for StrategyCandidate {
    type V = StrategyCandidateView;

    open spec fn view(&self) -> StrategyCandidateView {
        StrategyCandidateView {
            indicators: self.indicators@,
            nested_indicators: self.nested_indicators@,
            conditions: self.conditions@,
            exit_conditions: self.exit_conditions@,
            stop_handlers: self.stop_handlers@.map_values(|h: StopHandlerInfo| h@),
            take_handlers: self.take_handlers@.map_values(|h: StopHandlerInfo| h@),
            timeframes: self.timeframes@,
        }
    }
}

/// A copy of a list of handlers.
pub fn clone_handlers(v: &Vec<StopHandlerInfo>) -> (r: Vec<StopHandlerInfo>)
    ensures
        r@.map_values(|h: StopHandlerInfo| h@) == v@.map_values(|h: StopHandlerInfo| h@),
{
    let mut r: Vec<StopHandlerInfo> = Vec::new();
    let mut i: usize = 0;
    while i < v.len()
        invariant
            i <= v@.len(),
            r@.len() == i,
            forall|j: int| 0 <= j < i ==> (#[trigger] r@[j])@ == v@[j]@,
        decreases v@.len() - i,
    {
        r.push(v[i].clone());
        i = i + 1;
    }
    assert(r@.map_values(|h: StopHandlerInfo| h@) =~= v@.map_values(|h: StopHandlerInfo| h@));
    r
}

impl Clone for StrategyCandidate {
    fn clone(&self) -> (r: Self)
        ensures
            r@ == self@,
    {
        let indicators = self.indicators.clone();
        let nested_indicators = self.nested_indicators.clone();
        let conditions = self.conditions.clone();
        let exit_conditions = self.exit_conditions.clone();
        let timeframes = self.timeframes.clone();
        assert(indicators@ =~= self.indicators@);
        assert(nested_indicators@ =~= self.nested_indicators@);
        assert(conditions@ =~= self.conditions@);
        assert(exit_conditions@ =~= self.exit_conditions@);
        assert(timeframes@ =~= self.timeframes@);
        StrategyCandidate {
            indicators,
            nested_indicators,
            conditions,
            exit_conditions,
            stop_handlers: clone_handlers(&self.stop_handlers),
            take_handlers: clone_handlers(&self.take_handlers),
            timeframes,
        }
    }
}

/// One named parameter value of a strategy, with the value as text.
pub struct ParamEntry {
    pub name: String,
    pub value: String,
}

impl Clone for ParamEntry {
    fn clone(&self) -> (r: Self)
        ensures
            r == *self,
    {
        ParamEntry { name: self.name.clone(), value: self.value.clone() }
    }
}

/// A strategy with its parameter values and, once evaluated, its fitness.
pub struct EvaluatedStrategy {
    pub candidate: Option<StrategyCandidate>,
    pub parameters: Vec<ParamEntry>,
    /// The order key of the fitness, once evaluated.
    pub fitness: Option<i64>,
}

/// An evaluated strategy with its lists as sequences.
pub struct EvaluatedStrategyView {
    pub candidate: Option<StrategyCandidateView>,
    pub parameters: Seq<ParamEntry>,
    pub fitness: Option<i64>,
}

impl View for EvaluatedStrategy {
    type V = EvaluatedStrategyView;

    open spec fn view(&self) -> EvaluatedStrategyView {
        EvaluatedStrategyView {
            candidate: match self.candidate {
                Some(c) => Some(c@),
                None => None,
            },
            parameters: self.parameters@,
            fitness: self.fitness,
        }
    }
}

impl Clone for EvaluatedStrategy {
    fn clone(&self) -> (r: Self)
        ensures
            r@ == self@,
    {
        let candidate = match &self.candidate {
            Some(c) => Some(c.clone()),
            None => None,
        };
        let parameters = self.parameters.clone();
        assert(parameters@ =~= self.parameters@);
        EvaluatedStrategy { candidate, parameters, fitness: self.fitness }
    }
}

/// An individual of a population.
pub struct GeneticIndividual {
    pub strategy: EvaluatedStrategy,
    pub generation: usize,
    pub island_id: Option<usize>,
}

/// An individual with its lists as sequences.
pub struct GeneticIndividualView {
    pub strategy: EvaluatedStrategyView,
    pub generation: usize,
    pub island_id: Option<usize>,
}

impl View for GeneticIndividual {
    type V = GeneticIndividualView;

    open spec fn view(&self) -> GeneticIndividualView {
        GeneticIndividualView {
            strategy: self.strategy@,
            generation: self.generation,
            island_id: self.island_id,
        }
    }
}

impl Clone for GeneticIndividual {
    fn clone(&self) -> (r: Self)
        ensures
            r@ == self@,
    {
        GeneticIndividual {
            strategy: self.strategy.clone(),
            generation: self.generation,
            island_id: self.island_id,
        }
    }
}

/// The fitness key by which an individual is ranked: its fitness key, or 0
/// when it has not been evaluated.
pub open spec fn fitness_of(ind: GeneticIndividualView) -> i64 {
    match ind.strategy.fitness {
        Some(f) => f,
        None => 0,
    }
}

impl GeneticIndividual {
    /// The fitness key by which the individual is ranked.
    pub fn fitness_key(&self) -> (r: i64)
        ensures
            r == fitness_of(self@),
    {
        match self.strategy.fitness {
            Some(f) => f,
            None => 0,
        }
    }
}

/// A population of individuals, on an island or alone.
pub struct Population {
    pub individuals: Vec<GeneticIndividual>,
    pub generation: usize,
    pub island_id: Option<usize>,
}

/// A population with its individuals as a sequence of views.
pub struct PopulationView {
    pub individuals: Seq<GeneticIndividualView>,
    pub generation: usize,
    pub island_id: Option<usize>,
}

/// The views of a list of individuals.
pub open spec fn views_of(v: Seq<GeneticIndividual>) -> Seq<GeneticIndividualView> {
    v.map_values(|g: GeneticIndividual| g@)
}

impl View for Population {
    type V = PopulationView;

    open spec fn view(&self) -> PopulationView {
        PopulationView {
            individuals: views_of(self.individuals@),
            generation: self.generation,
            island_id: self.island_id,
        }
    }
}

/// A copy of a list of individuals.
pub fn clone_individuals(v: &Vec<GeneticIndividual>) -> (r: Vec<GeneticIndividual>)
    ensures
        views_of(r@) == views_of(v@),
{
    let mut r: Vec<GeneticIndividual> = Vec::new();
    let mut i: usize = 0;
    while i < v.len()
        invariant
            i <= v@.len(),
            r@.len() == i,
            forall|j: int| 0 <= j < i ==> (#[trigger] r@[j])@ == v@[j]@,
        decreases v@.len() - i,
    {
        r.push(v[i].clone());
        i = i + 1;
    }
    assert(views_of(r@) =~= views_of(v@));
    r
}

impl Clone for Population {
    fn clone(&self) -> (r: Self)
        ensures
            r@ == self@,
    {
        Population {
            individuals: clone_individuals(&self.individuals),
            generation: self.generation,
            island_id: self.island_id,
        }
    }
}

} // verus!
