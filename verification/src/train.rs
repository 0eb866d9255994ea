//! Training: evolving a population generation by generation until the best
//! fitness converges or a limit of generations is reached.

use crate::consts::Number;
use crate::population::config::Config;
use crate::population::fitness_of;
use crate::population::is_generation;
use crate::population::is_greatest;
use crate::population::succeeds;
use crate::population::Population;
use crate::population::PopulationError;
use crate::scenario::Scenario;
use vstd::prelude::*;

verus! {

/// A tolerance for the relative change of the best fitness: a fraction
/// with a sign, or a tolerance that no change exceeds.
#[derive(Clone, Copy, Debug)]
pub struct Tolerance {
    numerator: u64,
    denominator: u64,
    negative: bool,
}

impl Tolerance {
    #[verifier::type_invariant]
    spec fn defined(self) -> bool {
        if self.negative {
            self.denominator > 0 && self.numerator > 0
        } else {
            self.denominator > 0 || self.numerator > 0
        }
    }

    /// The numerator of the fraction, without its sign.
    pub closed spec fn numerator(self) -> nat {
        self.numerator as nat
    }

    /// The denominator of the fraction; 0 for the tolerance that no change
    /// exceeds.
    pub closed spec fn denominator(self) -> nat {
        self.denominator as nat
    }

    /// The tolerance is below 0.
    pub closed spec fn is_negative(self) -> bool {
        self.negative
    }

    /// The tolerance `numerator / denominator`, unless the denominator is 0.
    pub fn new(numerator: u64, denominator: u64) -> (tolerance: Option<Tolerance>)
        ensures
            tolerance.is_some() <==> denominator > 0,
            tolerance.is_some() ==> {
                &&& tolerance.unwrap().numerator() == numerator
                &&& tolerance.unwrap().denominator() == denominator
                &&& !tolerance.unwrap().is_negative()
            },
    {
        if denominator > 0 {
            Some(Tolerance { numerator, denominator, negative: false })
        } else {
            None
        }
    }

    /// The tolerance `-numerator / denominator`, unless the denominator is 0
    /// or the fraction is.
    pub fn below_zero(numerator: u64, denominator: u64) -> (tolerance: Option<Tolerance>)
        ensures
            tolerance.is_some() <==> denominator > 0 && numerator > 0,
            tolerance.is_some() ==> {
                &&& tolerance.unwrap().numerator() == numerator
                &&& tolerance.unwrap().denominator() == denominator
                &&& tolerance.unwrap().is_negative()
            },
    {
        if denominator > 0 && numerator > 0 {
            Some(Tolerance { numerator, denominator, negative: true })
        } else {
            None
        }
    }

    /// The tolerance that no change exceeds.
    pub fn unbounded() -> (tolerance: Tolerance)
        ensures
            tolerance.numerator() == 1,
            tolerance.denominator() == 0,
            !tolerance.is_negative(),
    {
        Tolerance { numerator: 1, denominator: 0, negative: false }
    }
}

/// The best fitness has converged: its change from the previous best,
/// divided by the best itself, is at most `epsilon`.
///
/// The quotient of a positive best is not negative, and that of a negative
/// best not positive. A best of 0 has no quotient: it counts as converged
/// only where it is a change and no change exceeds the tolerance.
pub open spec fn converged(previous_best: i32, best: i32, epsilon: Tolerance) -> bool {
    let change = vstd::math::abs(best - previous_best);
    if epsilon.is_negative() {
        best < 0 && change * epsilon.denominator() >= epsilon.numerator() * (-best)
    } else if best > 0 {
        change * epsilon.denominator() <= epsilon.numerator() * best
    } else if best < 0 {
        true
    } else {
        epsilon.denominator() == 0 && change != 0
    }
}

/// Whether the best fitness has converged.
pub fn has_converged(previous_best: Number, best: Number, epsilon: &Tolerance) -> (converged: bool)
    ensures
        converged == self::converged(previous_best, best, *epsilon),
{
    let change: i64 = best as i64 - previous_best as i64;
    let change: u128 = if change < 0 {
        (-change) as u128
    } else {
        change as u128
    };
    let size: u128 = if best < 0 {
        (-(best as i64)) as u128
    } else {
        best as u128
    };
    assert(change * epsilon.denominator <= 0x1_0000_0000 * 0xffff_ffff_ffff_ffff)
        by (nonlinear_arith)
        requires
            0 <= change <= 0x1_0000_0000,
            0 <= epsilon.denominator <= 0xffff_ffff_ffff_ffff,
    ;
    assert(epsilon.numerator * size <= 0xffff_ffff_ffff_ffff * 0x8000_0000) by (nonlinear_arith)
        requires
            0 <= size <= 0x8000_0000,
            0 <= epsilon.numerator <= 0xffff_ffff_ffff_ffff,
    ;
    let changed: u128 = change * (epsilon.denominator as u128);
    let allowed: u128 = (epsilon.numerator as u128) * size;
    if epsilon.negative {
        best < 0 && changed >= allowed
    } else if best > 0 {
        changed <= allowed
    } else if best < 0 {
        true
    } else {
        epsilon.denominator == 0 && change != 0
    }
}

/// The best fitness before generation `t`: that of the generation before
/// it, or the greatest `Number` before the first generation.
pub open spec fn previous_best(results: Seq<i32>, t: int) -> i32 {
    if t == 0 {
        i32::MAX
    } else {
        results[t - 1]
    }
}

/// The training stops after generation `t` for convergence.
pub open spec fn stops_after(results: Seq<i32>, t: int, epsilon: Option<Tolerance>) -> bool {
    match epsilon {
        Some(epsilon) => converged(previous_best(results, t), results[t], epsilon),
        None => false,
    }
}

/// `results` are the best fitness values of `generations`, each of which but
/// the first is bred from the one before it.
pub open spec fn is_history(
    generations: Seq<Seq<Seq<i32>>>,
    results: Seq<i32>,
    scenario: Scenario,
    config: Config,
) -> bool {
    &&& generations.len() == results.len()
    &&& forall|t: int|
        0 <= t < results.len() ==> {
            &&& (#[trigger] generations[t]).len() == config.population_size
            &&& is_generation(generations[t], scenario.number_of_objects as nat)
            &&& is_greatest(results[t], fitness_of(generations[t], scenario))
        }
    &&& forall|t: int|
        0 <= t < results.len() - 1 ==> succeeds(
            #[trigger] generations[t + 1],
            generations[t],
            scenario,
            config,
        )
}

/// Evolves a random population for the scenario and returns the best
/// fitness of each generation, in their order. The training stops after
/// `generation_limit` generations, or earlier after the first generation
/// whose best fitness has converged within `epsilon`, where one is given.
pub fn train(
    scenario: Scenario,
    population_config: Config,
    generation_limit: usize,
    epsilon: Option<Tolerance>,
) -> (trained: Result<Vec<Number>, PopulationError>)
    ensures
        match trained {
            Ok(results) => {
                &&& Population::refusal(scenario, population_config).is_none()
                &&& results@.len() <= generation_limit
                &&& generation_limit > 0 ==> results@.len() > 0
                &&& forall|t: int| 0 <= t < results@.len() - 1 ==> !stops_after(results@, t, epsilon)
                &&& results@.len() < generation_limit ==> results@.len() > 0 && stops_after(
                    results@,
                    results@.len() - 1,
                    epsilon,
                )
                &&& exists|generations: Seq<Seq<Seq<i32>>>| #[trigger]
                    is_history(generations, results@, scenario, population_config)
            },
            Err(error) => Population::refusal(scenario, population_config) == Some(error),
        },
{
    let mut population = match Population::new(scenario, population_config) {
        Ok(population) => population,
        Err(error) => {
            return Err(error);
        },
    };
    let mut results: Vec<Number> = Vec::new();
    let ghost mut generations: Seq<Seq<Seq<i32>>> = Seq::empty();

    // Nothing comes before the first generation: the greatest number stands
    // for its predecessor.
    let mut previous_best_individual: Number = Number::MAX;

    let mut generation: usize = 0;
    while generation < generation_limit
        invariant
            generation <= generation_limit,
            results@.len() == generation,
            Population::refusal(scenario, population_config).is_none(),
            population.well_formed(),
            population@.well_formed(),
            population@.scenario == scenario,
            population@.config == population_config,
            previous_best_individual == previous_best(results@, generation as int),
            forall|t: int| 0 <= t < results@.len() ==> !stops_after(results@, t, epsilon),
            is_history(generations, results@, scenario, population_config),
            generation > 0 ==> succeeds(
                population@.generation,
                generations.last(),
                scenario,
                population_config,
            ),
        decreases generation_limit - generation,
    {
        let ghost before = population@.generation;
        let ghost so_far = results@;
        let best_individual: Number = population.evolve();

        results.push(best_individual);
        proof {
            generations = generations.push(before);
            assert forall|t: int| 0 <= t < so_far.len() implies #[trigger] stops_after(
                results@,
                t,
                epsilon,
            ) == stops_after(so_far, t, epsilon) by {}
        }

        let stop: bool = match &epsilon {
            Some(epsilon) => has_converged(previous_best_individual, best_individual, epsilon),
            None => false,
        };
        assert(stop == stops_after(results@, generation as int, epsilon));
        previous_best_individual = best_individual;
        generation += 1;
        if stop {
            return Ok(results);
        }
    }
    Ok(results)
}

} // verus!
