//! The parameters of an evolution.

use crate::random::UNIT;
use vstd::arithmetic::div_mod::lemma_div_is_ordered;
use vstd::arithmetic::div_mod::lemma_div_multiples_vanish;
use vstd::arithmetic::mul::lemma_mul_inequality;
use vstd::prelude::*;

verus! {

/// A probability, held as a whole number of steps of `1 / UNIT` between 0
/// and 1, both included.
#[derive(Clone, Copy, Debug)]
pub struct Probability {
    steps: u64,
}

impl Probability {
    #[verifier::type_invariant]
    spec fn at_most_one(self) -> bool {
        self.steps <= UNIT
    }

    /// The probability in steps of `1 / UNIT`.
    pub closed spec fn steps(self) -> nat {
        self.steps as nat
    }

    /// The event of this probability happens on the unit draw `drawn`: the
    /// probability meets or exceeds the draw.
    pub open spec fn admits(self, drawn: u64) -> bool {
        self.steps() >= drawn
    }

    /// The probability 0.
    pub fn zero() -> (p: Probability)
        ensures
            p.steps() == 0,
    {
        Probability { steps: 0 }
    }

    /// The probability 1.
    pub fn one() -> (p: Probability)
        ensures
            p.steps() == UNIT,
    {
        Probability { steps: UNIT }
    }

    /// The probability of `steps` steps, unless that is more than 1.
    pub fn from_steps(steps: u64) -> (p: Option<Probability>)
        ensures
            p.is_some() <==> steps <= UNIT,
            p.is_some() ==> p.unwrap().steps() == steps,
    {
        if steps <= UNIT {
            Some(Probability { steps })
        } else {
            None
        }
    }

    /// The probability `numerator / denominator`, rounded down to a whole
    /// number of steps, unless the fraction is undefined or more than 1.
    pub fn from_ratio(numerator: u64, denominator: u64) -> (p: Option<Probability>)
        ensures
            p.is_some() <==> 0 < denominator && numerator <= denominator,
            p.is_some() ==> p.unwrap().steps() == (numerator * UNIT) / (denominator as int),
    {
        if denominator == 0 || numerator > denominator {
            return None;
        }
        assert(denominator * UNIT <= u64::MAX * UNIT) by {
            lemma_mul_inequality(denominator as int, u64::MAX as int, UNIT as int);
        }
        let scaled: u128 = (numerator as u128) * (UNIT as u128) / (denominator as u128);
        assert(scaled <= UNIT) by {
            lemma_div_is_ordered(
                numerator * UNIT,
                denominator * UNIT,
                denominator as int,
            );
            lemma_div_multiples_vanish(UNIT as int, denominator as int);
        }
        Some(Probability { steps: scaled as u64 })
    }

    /// The probability in steps of `1 / UNIT`.
    pub fn to_steps(&self) -> (steps: u64)
        ensures
            steps == self.steps(),
            steps <= UNIT,
    {
        proof {
            use_type_invariant(self);
        }
        self.steps
    }

    /// Whether the event of this probability happens on the unit draw
    /// `drawn`.
    pub fn happens_on(&self, drawn: u64) -> (happens: bool)
        ensures
            happens == self.admits(drawn),
    {
        self.steps >= drawn
    }
}

/// The parameters of an evolution.
#[derive(Debug)]
pub struct Config {
    /// The chance of each gene of a child to be flipped.
    pub mutation_probability: Probability,
    /// The chance of two parents to recombine.
    pub crossover_probability: Probability,
    /// The number of individuals of a generation.
    pub population_size: usize,
    /// The number of individuals that compete for each place as a parent.
    pub tournament_size: usize,
}

impl Config {
    /// A tournament has at least one competitor and at most the whole
    /// population.
    pub open spec fn valid(&self) -> bool {
        1 <= self.tournament_size <= self.population_size
    }

    /// Whether the configuration is valid.
    pub fn is_valid(&self) -> (valid: bool)
        ensures
            valid == self.valid(),
    {
        1 <= self.tournament_size && self.tournament_size <= self.population_size
    }
}

} // verus!
