//! The knapsack problem to solve: its data, the rules that make it worth
//! solving, and its random generation.

use crate::consts::Number;
use crate::linalg::dot;
use crate::linalg::dot_fits;
use crate::linalg::NumberVector;
use crate::population::random_vec::is_binary;
use crate::random::gen_below;
use crate::random::thread_rng;
use vstd::prelude::*;

verus! {

/// A knapsack problem: a catalogue of objects, each with a weight, a size and
/// a cost, and the budgets of weight and size.
#[derive(Debug)]
pub struct Scenario {
    pub weights: NumberVector,
    pub sizes: NumberVector,
    pub costs: NumberVector,
    pub number_of_objects: Number,
    pub max_weight: Number,
    pub max_size: Number,
}

/// What a scenario holds.
pub struct ScenarioView {
    pub weights: Seq<i32>,
    pub sizes: Seq<i32>,
    pub costs: Seq<i32>,
    pub number_of_objects: i32,
    pub max_weight: i32,
    pub max_size: i32,
}

impl View for Scenario {
    type V = ScenarioView;

    open spec fn view(&self) -> ScenarioView {
        ScenarioView {
            weights: self.weights@,
            sizes: self.sizes@,
            costs: self.costs@,
            number_of_objects: self.number_of_objects,
            max_weight: self.max_weight,
            max_size: self.max_size,
        }
    }
}

/// Why the numbers of a scenario do not make a problem worth solving.
#[derive(Debug, PartialEq, Eq, Structural)]
pub enum StrategyLoadError {
    /// There is no header line.
    NoHeader,
    /// The header has not three fields.
    HeaderLengthOtherThen3,
    /// The line of an object has not three fields.
    LineLengthOtherThen3,
    /// The header declares another number of objects than there are lines of
    /// objects.
    IncorrectNumberOfObjects { declared: Number, actual: usize },
    /// All objects together weigh no more than twice the budget of weight.
    TotalWeightToSmall { minimal: Number, total_weight: Number },
    /// All objects together are no larger than twice the budget of size.
    TotalSizeToSmall { minimal: Number, total_size: Number },
}

/// Why a scenario is refused.
#[derive(Debug, PartialEq, Eq, Structural)]
pub enum ScenarioError {
    /// A field of the given line, the header being line 0, is no `Number`
    /// in decimal notation.
    InvalidNumber { line: usize },
    /// Some choice of objects has a total that is no `Number`, or twice a
    /// budget is none.
    TooLarge,
    /// The numbers are unfit.
    Malformed(StrategyLoadError),
}

/// Why no scenario was generated.
#[derive(Debug, PartialEq, Eq, Structural)]
pub enum GenerateError {
    /// The parameters leave no weight, size or cost to draw from.
    EmptyRange,
    /// The objects drawn do not make a scenario.
    Unfit(ScenarioError),
}

impl GenerateError {
    /// Another attempt can do better: the objects drawn were too light or
    /// too small for the budgets, which is a matter of the draws. The other
    /// errors come of the parameters and come again.
    pub open spec fn is_passing(self) -> bool {
        match self {
            GenerateError::Unfit(
                ScenarioError::Malformed(StrategyLoadError::TotalWeightToSmall { .. }),
            ) => true,
            GenerateError::Unfit(
                ScenarioError::Malformed(StrategyLoadError::TotalSizeToSmall { .. }),
            ) => true,
            _ => false,
        }
    }

    /// Whether to draw again after an attempt that failed with this error.
    pub fn should_retry(&self) -> (retry: bool)
        ensures
            retry == self.is_passing(),
    {
        match self {
            GenerateError::Unfit(
                ScenarioError::Malformed(StrategyLoadError::TotalWeightToSmall { .. }),
            ) => true,
            GenerateError::Unfit(
                ScenarioError::Malformed(StrategyLoadError::TotalSizeToSmall { .. }),
            ) => true,
            _ => false,
        }
    }
}

/// There are weights, sizes and costs to draw from: at least two objects,
/// and for each budget a tenfold that is a `Number` and at least twice the
/// number of objects.
pub open spec fn can_generate(number_of_objects: i32, max_weight: i32, max_size: i32) -> bool {
    &&& number_of_objects >= 2
    &&& 2 * number_of_objects <= 10 * max_weight <= i32::MAX
    &&& 2 * number_of_objects <= 10 * max_size <= i32::MAX
}

/// `drawn` can be drawn for the given parameters: it has them for its header
/// and holds, for each object, a weight and a size from 1 to below ten times
/// the budget's share of an object, and a cost from 1 to below the number of
/// objects.
pub open spec fn is_draft(
    drawn: ScenarioView,
    number_of_objects: i32,
    max_weight: i32,
    max_size: i32,
) -> bool {
    &&& drawn.number_of_objects == number_of_objects
    &&& drawn.max_weight == max_weight
    &&& drawn.max_size == max_size
    &&& drawn.weights.len() == number_of_objects
    &&& drawn.sizes.len() == number_of_objects
    &&& drawn.costs.len() == number_of_objects
    &&& forall|i: int|
        0 <= i < number_of_objects ==> {
            &&& 1 <= #[trigger] drawn.weights[i] < 10 * max_weight / (number_of_objects as int)
            &&& 1 <= drawn.sizes[i] < 10 * max_size / (number_of_objects as int)
            &&& 1 <= drawn.costs[i] < number_of_objects
        }
}

/// The sum of the entries of `s`.
pub open spec fn total(s: Seq<i32>) -> int
    decreases s.len(),
{
    if s.len() == 0 {
        0
    } else {
        total(s.drop_last()) + s.last()
    }
}

/// The sum of the positive entries of `s`: the greatest sum that a choice of
/// its entries can reach.
pub open spec fn upper_total(s: Seq<i32>) -> int
    decreases s.len(),
{
    if s.len() == 0 {
        0
    } else {
        upper_total(s.drop_last()) + if s.last() > 0 {
            s.last() as int
        } else {
            0
        }
    }
}

/// The sum of the negative entries of `s`: the least sum that a choice of its
/// entries can reach.
pub open spec fn lower_total(s: Seq<i32>) -> int
    decreases s.len(),
{
    if s.len() == 0 {
        0
    } else {
        lower_total(s.drop_last()) + if s.last() < 0 {
            s.last() as int
        } else {
            0
        }
    }
}

/// Every choice of entries of `s` sums to a `Number`.
pub open spec fn totals_fit(s: Seq<i32>) -> bool {
    i32::MIN <= lower_total(s) && upper_total(s) <= i32::MAX
}

impl ScenarioView {
    /// The catalogue is not empty, and each of the three vectors has one
    /// entry per object.
    pub open spec fn consistent(self) -> bool {
        &&& self.number_of_objects > 0
        &&& self.weights.len() == self.number_of_objects
        &&& self.sizes.len() == self.number_of_objects
        &&& self.costs.len() == self.number_of_objects
    }

    /// The total weight, size and cost of every choice of objects is a
    /// `Number`.
    pub open spec fn bounded(self) -> bool {
        &&& totals_fit(self.weights)
        &&& totals_fit(self.sizes)
        &&& totals_fit(self.costs)
    }

    /// Twice each budget is a `Number`.
    pub open spec fn budgets_double(self) -> bool {
        &&& i32::MIN <= 2 * self.max_weight <= i32::MAX
        &&& i32::MIN <= 2 * self.max_size <= i32::MAX
    }

    /// The first reason, if any, to refuse these numbers as a scenario: a
    /// wrong number of objects; numbers too large; a total weight that twice
    /// the budget reaches; a total size that twice the budget reaches.
    pub open spec fn fault(self) -> Option<ScenarioError> {
        if self.weights.len() != self.number_of_objects {
            Some(
                ScenarioError::Malformed(
                    StrategyLoadError::IncorrectNumberOfObjects {
                        declared: self.number_of_objects,
                        actual: self.weights.len() as usize,
                    },
                ),
            )
        } else if !self.bounded() || !self.budgets_double() {
            Some(ScenarioError::TooLarge)
        } else if total(self.weights) <= 2 * self.max_weight {
            Some(
                ScenarioError::Malformed(
                    StrategyLoadError::TotalWeightToSmall {
                        minimal: (2 * self.max_weight) as i32,
                        total_weight: total(self.weights) as i32,
                    },
                ),
            )
        } else if total(self.sizes) <= 2 * self.max_size {
            Some(
                ScenarioError::Malformed(
                    StrategyLoadError::TotalSizeToSmall {
                        minimal: (2 * self.max_size) as i32,
                        total_size: total(self.sizes) as i32,
                    },
                ),
            )
        } else {
            None
        }
    }
}

impl Scenario {
    /// The scenario of the given objects, one entry of each vector per
    /// object, unless their numbers are at fault.
    pub fn assemble(
        number_of_objects: Number,
        max_weight: Number,
        max_size: Number,
        weights: Vec<Number>,
        sizes: Vec<Number>,
        costs: Vec<Number>,
    ) -> (made: Result<Scenario, ScenarioError>)
        requires
            weights@.len() == sizes@.len(),
            weights@.len() == costs@.len(),
        ensures
            match made {
                Ok(scenario) => {
                    &&& scenario@.fault().is_none()
                    &&& scenario@ == (ScenarioView {
                        weights: weights@,
                        sizes: sizes@,
                        costs: costs@,
                        number_of_objects,
                        max_weight,
                        max_size,
                    })
                },
                Err(error) => (ScenarioView {
                    weights: weights@,
                    sizes: sizes@,
                    costs: costs@,
                    number_of_objects,
                    max_weight,
                    max_size,
                }).fault() == Some(error),
            },
    {
        if number_of_objects < 0 || weights.len() != number_of_objects as usize {
            return Err(
                ScenarioError::Malformed(
                    StrategyLoadError::IncorrectNumberOfObjects {
                        declared: number_of_objects,
                        actual: weights.len(),
                    },
                ),
            );
        }
        let limit: Number = i32::MAX / 2;
        if max_weight > limit || max_weight < -limit - 1 || max_size > limit || max_size < -limit
            - 1 || !do_totals_fit(&weights) || !do_totals_fit(&sizes) || !do_totals_fit(&costs) {
            return Err(ScenarioError::TooLarge);
        }
        let total_weight: Number = sum(&weights);
        if total_weight <= 2 * max_weight {
            return Err(
                ScenarioError::Malformed(
                    StrategyLoadError::TotalWeightToSmall { minimal: 2 * max_weight, total_weight },
                ),
            );
        }
        let total_size: Number = sum(&sizes);
        if total_size <= 2 * max_size {
            return Err(
                ScenarioError::Malformed(
                    StrategyLoadError::TotalSizeToSmall { minimal: 2 * max_size, total_size },
                ),
            );
        }
        Ok(
            Scenario {
                weights: NumberVector::from_vec(weights),
                sizes: NumberVector::from_vec(sizes),
                costs: NumberVector::from_vec(costs),
                number_of_objects,
                max_weight,
                max_size,
            },
        )
    }

    /// The catalogue is not empty, and each of the three vectors has one
    /// entry per object.
    pub open spec fn consistent(&self) -> bool {
        self@.consistent()
    }

    /// The total weight, size and cost of every choice of objects is a
    /// `Number`.
    pub open spec fn bounded(&self) -> bool {
        self@.bounded()
    }

    /// The scenario is consistent and bounded.
    pub open spec fn well_formed(&self) -> bool {
        self.consistent() && self.bounded()
    }

    /// Draws the objects of a scenario at random and makes the scenario of
    /// them, unless the parameters or the objects drawn are unfit.
    pub fn generate(number_of_objects: Number, max_weight: Number, max_size: Number) -> (made:
        Result<Scenario, GenerateError>)
        ensures
            match made {
                Ok(scenario) => {
                    &&& can_generate(number_of_objects, max_weight, max_size)
                    &&& is_draft(scenario@, number_of_objects, max_weight, max_size)
                    &&& scenario@.fault().is_none()
                },
                Err(GenerateError::EmptyRange) => !can_generate(
                    number_of_objects,
                    max_weight,
                    max_size,
                ),
                Err(GenerateError::Unfit(fault)) => {
                    &&& can_generate(number_of_objects, max_weight, max_size)
                    &&& exists|drawn: ScenarioView|
                        #[trigger] is_draft(drawn, number_of_objects, max_weight, max_size)
                            && drawn.fault() == Some(fault)
                },
            },
    {
        let limit: Number = i32::MAX / 10;
        if number_of_objects < 2 || max_weight <= 0 || max_weight > limit || max_size <= 0
            || max_size > limit {
            return Err(GenerateError::EmptyRange);
        }
        let weight_bound: Number = 10 * max_weight / number_of_objects;
        let size_bound: Number = 10 * max_size / number_of_objects;
        if weight_bound < 2 || size_bound < 2 {
            assert(!(2 * number_of_objects <= 10 * max_weight) || !(2 * number_of_objects <= 10
                * max_size)) by (nonlinear_arith)
                requires
                    number_of_objects >= 2,
                    10 * max_weight / (number_of_objects as int) < 2 || 10 * max_size / (
                    number_of_objects as int) < 2,
            ;
            return Err(GenerateError::EmptyRange);
        }
        assert(2 * number_of_objects <= 10 * max_weight && 2 * number_of_objects <= 10 * max_size)
            by (nonlinear_arith)
            requires
                number_of_objects >= 2,
                10 * max_weight / (number_of_objects as int) >= 2,
                10 * max_size / (number_of_objects as int) >= 2,
        ;
        let mut rng = thread_rng();
        let mut weights: Vec<Number> = Vec::new();
        let mut sizes: Vec<Number> = Vec::new();
        let mut costs: Vec<Number> = Vec::new();
        let mut i: Number = 0;
        while i < number_of_objects
            invariant
                0 <= i <= number_of_objects,
                2 <= number_of_objects,
                2 <= weight_bound,
                2 <= size_bound,
                weights@.len() == i,
                sizes@.len() == i,
                costs@.len() == i,
                forall|j: int| 0 <= j < i ==> 1 <= #[trigger] weights@[j] < weight_bound,
                forall|j: int| 0 <= j < i ==> 1 <= #[trigger] sizes@[j] < size_bound,
                forall|j: int| 0 <= j < i ==> 1 <= #[trigger] costs@[j] < number_of_objects,
            decreases number_of_objects - i,
        {
            let weight: Number = 1 + gen_below(&mut rng, (weight_bound - 1) as usize) as Number;
            let size: Number = 1 + gen_below(&mut rng, (size_bound - 1) as usize) as Number;
            let cost: Number = 1 + gen_below(&mut rng, (number_of_objects - 1) as usize) as Number;
            weights.push(weight);
            sizes.push(size);
            costs.push(cost);
            i += 1;
        }
        let ghost drawn = ScenarioView {
            weights: weights@,
            sizes: sizes@,
            costs: costs@,
            number_of_objects,
            max_weight,
            max_size,
        };
        assert(is_draft(drawn, number_of_objects, max_weight, max_size));
        match Scenario::assemble(number_of_objects, max_weight, max_size, weights, sizes, costs) {
            Ok(scenario) => Ok(scenario),
            Err(fault) => Err(GenerateError::Unfit(fault)),
        }
    }

    /// Whether the scenario is consistent.
    pub fn is_consistent(&self) -> (consistent: bool)
        ensures
            consistent == self.consistent(),
    {
        if self.number_of_objects <= 0 {
            return false;
        }
        let objects: usize = self.number_of_objects as usize;
        self.weights.nrows() == objects && self.sizes.nrows() == objects && self.costs.nrows()
            == objects
    }

    /// Whether the scenario is bounded.
    pub fn is_bounded(&self) -> (bounded: bool)
        ensures
            bounded == self.bounded(),
    {
        let weights: Vec<Number> = self.weights.to_vec();
        let sizes: Vec<Number> = self.sizes.to_vec();
        let costs: Vec<Number> = self.costs.to_vec();
        do_totals_fit(&weights) && do_totals_fit(&sizes) && do_totals_fit(&costs)
    }
}

/// The sum of numbers of which every choice sums to a `Number`.
pub fn sum(values: &Vec<Number>) -> (sum: Number)
    requires
        totals_fit(values@),
    ensures
        sum == total(values@),
{
    let mut sum: Number = 0;
    let mut i: usize = 0;
    while i < values.len()
        invariant
            i <= values@.len(),
            totals_fit(values@),
            sum == total(values@.take(i as int)),
        decreases values@.len() - i,
    {
        proof {
            assert(values@.take(i as int + 1).drop_last() =~= values@.take(i as int));
            lemma_total_bounds(values@.take(i as int + 1));
            lemma_total_prefix(values@, i as int + 1);
        }
        sum = sum + values[i];
        i += 1;
    }
    assert(values@.take(i as int) =~= values@);
    sum
}

/// The sum of a sequence lies between its lower and its upper total.
pub proof fn lemma_total_bounds(s: Seq<i32>)
    ensures
        lower_total(s) <= total(s) <= upper_total(s),
    decreases s.len(),
{
    if s.len() > 0 {
        lemma_total_bounds(s.drop_last());
    }
}

/// Whether every choice of the given numbers sums to a `Number`.
pub fn do_totals_fit(values: &Vec<Number>) -> (fit: bool)
    ensures
        fit == totals_fit(values@),
{
    let mut upper: i64 = 0;
    let mut lower: i64 = 0;
    let mut i: usize = 0;
    while i < values.len()
        invariant
            i <= values@.len(),
            upper == upper_total(values@.take(i as int)),
            lower == lower_total(values@.take(i as int)),
            0 <= upper <= i32::MAX,
            i32::MIN <= lower <= 0,
        decreases values@.len() - i,
    {
        let value: Number = values[i];
        proof {
            assert(values@.take(i as int + 1).drop_last() =~= values@.take(i as int));
            lemma_total_prefix(values@, i as int + 1);
        }
        if value > 0 {
            upper = upper + value as i64;
        } else {
            lower = lower + value as i64;
        }
        if upper > i32::MAX as i64 || lower < i32::MIN as i64 {
            return false;
        }
        i += 1;
    }
    assert(values@.take(i as int) =~= values@);
    true
}

/// The totals of a prefix lie within the totals of the whole.
pub proof fn lemma_total_prefix(s: Seq<i32>, k: int)
    requires
        0 <= k <= s.len(),
    ensures
        0 <= upper_total(s.take(k)) <= upper_total(s),
        lower_total(s) <= lower_total(s.take(k)) <= 0,
    decreases s.len() - k,
{
    if k == s.len() {
        assert(s.take(k) =~= s);
        lemma_total_signs(s);
    } else {
        lemma_total_prefix(s, k + 1);
        assert(s.take(k + 1).drop_last() =~= s.take(k));
        lemma_total_signs(s.take(k));
    }
}

/// The upper total is not negative and the lower total not positive.
pub proof fn lemma_total_signs(s: Seq<i32>)
    ensures
        0 <= upper_total(s),
        lower_total(s) <= 0,
    decreases s.len(),
{
    if s.len() > 0 {
        lemma_total_signs(s.drop_last());
    }
}

/// What a binary individual picks of `values` sums to a number between
/// their lower and their upper total.
pub proof fn lemma_dot_bounds(genes: Seq<i32>, values: Seq<i32>)
    requires
        genes.len() == values.len(),
        is_binary(genes),
    ensures
        lower_total(values) <= dot(genes, values) <= upper_total(values),
    decreases genes.len(),
{
    if genes.len() > 0 {
        lemma_dot_bounds(genes.drop_last(), values.drop_last());
        let gene = genes.last();
        let value = values.last();
        assert(gene * value == 0 || gene * value == value);
    }
}

/// Machine arithmetic can form what a binary individual picks of `values`,
/// where every choice of them sums to a `Number`.
pub proof fn lemma_dot_fits(genes: Seq<i32>, values: Seq<i32>)
    requires
        genes.len() == values.len(),
        is_binary(genes),
        totals_fit(values),
    ensures
        dot_fits(genes, values),
{
    assert forall|k: int| 0 <= k <= genes.len() implies i32::MIN <= #[trigger] dot(
        genes.take(k),
        values.take(k),
    ) <= i32::MAX by {
        lemma_dot_bounds(genes.take(k), values.take(k));
        lemma_total_prefix(values, k);
    }
}

} // verus!
