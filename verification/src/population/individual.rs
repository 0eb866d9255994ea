//! Reproduction: the child of two individuals by crossover and mutation.
//!
//! The functions that draw at random say which children can come of the
//! parents; `crossover_at` and `mutate_gene` take the draws as arguments and
//! say which child comes of them.

use crate::consts::Number;
use crate::population::config::Config;
use crate::population::config::Probability;
use crate::population::random_vec::is_binary;
use crate::random::gen_below;
use crate::random::unit_draw;
use crate::random::UNIT;
use rand::rngs::ThreadRng;
use vstd::prelude::*;

verus! {

/// The gene with its lowest bit flipped: 1 for 0 and 0 for 1.
pub open spec fn flipped(gene: i32) -> i32 {
    if gene % 2 == 0 {
        (gene + 1) as i32
    } else {
        (gene - 1) as i32
    }
}

/// The child of two parents before mutation, decided by the unit draw
/// `chance` and the crossover point `point`: where the parents recombine,
/// the genes of `parent1` before the point and those of `parent2` from the
/// point on; else `parent1`.
pub open spec fn crossed(
    parent1: Seq<i32>,
    parent2: Seq<i32>,
    crossover: Probability,
    chance: u64,
    point: int,
) -> Seq<i32> {
    if crossover.admits(chance) {
        parent1.take(point) + parent2.skip(point)
    } else {
        parent1
    }
}

/// A gene after mutation, decided by the unit draw `chance`.
pub open spec fn mutated_gene(gene: i32, mutation: Probability, chance: u64) -> i32 {
    if mutation.admits(chance) {
        flipped(gene)
    } else {
        gene
    }
}

/// An individual after mutation, each gene decided by the unit draw at its
/// position.
pub open spec fn mutated(genes: Seq<i32>, mutation: Probability, chances: Seq<u64>) -> Seq<i32> {
    Seq::new(genes.len(), |i: int| mutated_gene(genes[i], mutation, chances[i]))
}

/// The child of two parents, decided by the draws of its crossover and of
/// the mutation of each gene.
pub open spec fn offspring(
    parent1: Seq<i32>,
    parent2: Seq<i32>,
    config: Config,
    chance: u64,
    point: int,
    chances: Seq<u64>,
) -> Seq<i32> {
    mutated(
        crossed(parent1, parent2, config.crossover_probability, chance, point),
        config.mutation_probability,
        chances,
    )
}

/// `child` can come of the two parents: some draws make it their offspring.
pub open spec fn is_offspring(
    child: Seq<i32>,
    parent1: Seq<i32>,
    parent2: Seq<i32>,
    config: Config,
) -> bool {
    exists|chance: u64, point: int, chances: Seq<u64>|
        {
            &&& chance < UNIT
            &&& 0 <= point < parent1.len()
            &&& chances.len() == parent1.len()
            &&& forall|i: int| 0 <= i < chances.len() ==> chances[i] < UNIT
            &&& child == #[trigger] offspring(parent1, parent2, config, chance, point, chances)
        }
}

/// With a crossover probability of 0 the child is `parent1` before mutation,
/// on every unit draw but 0, which no probability fails to meet.
pub proof fn lemma_no_crossover(
    parent1: Seq<i32>,
    parent2: Seq<i32>,
    crossover: Probability,
    chance: u64,
    point: int,
)
    requires
        crossover.steps() == 0,
        chance > 0,
    ensures
        crossed(parent1, parent2, crossover, chance, point) == parent1,
{
}

/// With a crossover probability of 1 and a mutation probability of 0 the
/// child is a prefix of `parent1` followed by a suffix of `parent2`, split at
/// the crossover point, unless a gene's unit draw is 0, which no probability
/// fails to meet.
pub proof fn lemma_pure_crossover(
    parent1: Seq<i32>,
    parent2: Seq<i32>,
    config: Config,
    chance: u64,
    point: int,
    chances: Seq<u64>,
)
    requires
        config.crossover_probability.steps() == UNIT,
        config.mutation_probability.steps() == 0,
        parent1.len() == parent2.len(),
        chance < UNIT,
        0 <= point < parent1.len(),
        chances.len() == parent1.len(),
        forall|i: int| 0 <= i < chances.len() ==> chances[i] > 0,
    ensures
        offspring(parent1, parent2, config, chance, point, chances) == parent1.take(point)
            + parent2.skip(point),
{
}

/// The offspring of two binary individuals of one length is binary and of
/// that length.
pub proof fn lemma_offspring_binary(
    parent1: Seq<i32>,
    parent2: Seq<i32>,
    config: Config,
    chance: u64,
    point: int,
    chances: Seq<u64>,
)
    requires
        parent1.len() == parent2.len(),
        is_binary(parent1),
        is_binary(parent2),
        0 <= point <= parent1.len(),
    ensures
        offspring(parent1, parent2, config, chance, point, chances).len() == parent1.len(),
        is_binary(offspring(parent1, parent2, config, chance, point, chances)),
{
    let before = crossed(parent1, parent2, config.crossover_probability, chance, point);
    assert(is_binary(before));
}

/// A child that can come of two binary individuals of one length is binary
/// and of that length.
pub proof fn lemma_offspring_shape(
    child: Seq<i32>,
    parent1: Seq<i32>,
    parent2: Seq<i32>,
    config: Config,
)
    requires
        is_offspring(child, parent1, parent2, config),
        parent1.len() == parent2.len(),
        is_binary(parent1),
        is_binary(parent2),
    ensures
        child.len() == parent1.len(),
        is_binary(child),
{
    let (chance, point, chances) = choose|chance: u64, point: int, chances: Seq<u64>|
        {
            &&& chance < UNIT
            &&& 0 <= point < parent1.len()
            &&& chances.len() == parent1.len()
            &&& forall|i: int| 0 <= i < chances.len() ==> chances[i] < UNIT
            &&& child == #[trigger] offspring(parent1, parent2, config, chance, point, chances)
        };
    lemma_offspring_binary(parent1, parent2, config, chance, point, chances);
}

/// Writes into `child` the genes of `parent1` before `point` and those of
/// `parent2` from `point` on, if the parents recombine on the unit draw
/// `chance`; else the genes of `parent1`.
pub fn crossover_at(
    child: &mut Vec<Number>,
    parent1: &Vec<Number>,
    parent2: &Vec<Number>,
    config: &Config,
    chance: u64,
    point: usize,
)
    requires
        old(child)@.len() == parent1@.len(),
        parent1@.len() == parent2@.len(),
        point <= parent1@.len(),
    ensures
        final(child)@ == crossed(
            parent1@,
            parent2@,
            config.crossover_probability,
            chance,
            point as int,
        ),
{
    let recombine: bool = config.crossover_probability.happens_on(chance);
    let genes: usize = parent1.len();
    let mut i: usize = 0;
    while i < genes
        invariant
            i <= genes,
            genes == parent1@.len(),
            child@.len() == genes,
            parent2@.len() == genes,
            point <= genes,
            recombine == config.crossover_probability.admits(chance),
            forall|j: int|
                0 <= j < i ==> child@[j] == if recombine && j >= point {
                    parent2@[j]
                } else {
                    parent1@[j]
                },
        decreases genes - i,
    {
        let gene: Number = if recombine && i >= point {
            parent2[i]
        } else {
            parent1[i]
        };
        child.set(i, gene);
        i += 1;
    }
}

/// Crossover: with the configured probability the child takes a random
/// number of genes from the beginning of `parent1` and the rest from
/// `parent2`; else it is a copy of `parent1`.
pub fn crossover(
    child: &mut Vec<Number>,
    parent1: &Vec<Number>,
    parent2: &Vec<Number>,
    rng: &mut ThreadRng,
    config: &Config,
)
    requires
        old(child)@.len() == parent1@.len(),
        parent1@.len() == parent2@.len(),
        parent1@.len() > 0,
    ensures
        exists|chance: u64, point: int|
            {
                &&& chance < UNIT
                &&& 0 <= point < parent1@.len()
                &&& final(child)@ == #[trigger] crossed(
                    parent1@,
                    parent2@,
                    config.crossover_probability,
                    chance,
                    point,
                )
            },
{
    let chance: u64 = unit_draw(rng);
    // The crossover point is drawn below the number of genes, so the child
    // never takes all of its genes from `parent1` this way.
    let point: usize = if config.crossover_probability.happens_on(chance) {
        gen_below(rng, parent1.len())
    } else {
        0
    };
    crossover_at(child, parent1, parent2, config, chance, point);
}

/// A gene after mutation: flipped if the mutation happens on the unit draw
/// `chance`.
pub fn mutate_gene(gene: Number, config: &Config, chance: u64) -> (after: Number)
    ensures
        after == mutated_gene(gene, config.mutation_probability, chance),
{
    assert(gene ^ 1i32 == if gene % 2 == 0 {
        (gene + 1) as i32
    } else {
        (gene - 1) as i32
    }) by (bit_vector);
    assert(gene ^ 0i32 == gene) by (bit_vector);
    let flip: Number = if config.mutation_probability.happens_on(chance) {
        1
    } else {
        0
    };
    gene ^ flip
}

/// Mutation: flips each gene of `individual` with the configured
/// probability, one draw per gene.
pub fn mutate(individual: &mut Vec<Number>, rng: &mut ThreadRng, config: &Config)
    ensures
        exists|chances: Seq<u64>|
            {
                &&& chances.len() == old(individual)@.len()
                &&& forall|i: int| 0 <= i < chances.len() ==> chances[i] < UNIT
                &&& final(individual)@ == #[trigger] mutated(
                    old(individual)@,
                    config.mutation_probability,
                    chances,
                )
            },
{
    let genes: usize = individual.len();
    let ghost mut chances: Seq<u64> = Seq::empty();
    let mut i: usize = 0;
    while i < genes
        invariant
            i <= genes,
            genes == old(individual)@.len(),
            individual@.len() == genes,
            chances.len() == i,
            forall|j: int| 0 <= j < i ==> chances[j] < UNIT,
            forall|j: int|
                0 <= j < i ==> individual@[j] == mutated_gene(
                    old(individual)@[j],
                    config.mutation_probability,
                    chances[j],
                ),
            forall|j: int| i <= j < genes ==> individual@[j] == old(individual)@[j],
        decreases genes - i,
    {
        let chance: u64 = unit_draw(rng);
        let gene: Number = mutate_gene(individual[i], config, chance);
        individual.set(i, gene);
        proof {
            chances = chances.push(chance);
        }
        i += 1;
    }
    assert(individual@ =~= mutated(old(individual)@, config.mutation_probability, chances));
}

/// Creates a new individual of two parents and stores it into `child`:
/// crossover, then mutation. Every gene of `child` is overwritten.
pub fn new_individual(
    child: &mut Vec<Number>,
    parent1: &Vec<Number>,
    parent2: &Vec<Number>,
    rng: &mut ThreadRng,
    config: &Config,
)
    requires
        old(child)@.len() == parent1@.len(),
        parent1@.len() == parent2@.len(),
        parent1@.len() > 0,
    ensures
        is_offspring(final(child)@, parent1@, parent2@, *config),
{
    crossover(child, parent1, parent2, rng, config);
    let ghost before = child@;
    mutate(child, rng, config);
    proof {
        let (chance, point) = choose|chance: u64, point: int|
            {
                &&& chance < UNIT
                &&& 0 <= point < parent1@.len()
                &&& before == #[trigger] crossed(
                    parent1@,
                    parent2@,
                    config.crossover_probability,
                    chance,
                    point,
                )
            };
        let chances = choose|chances: Seq<u64>|
            {
                &&& chances.len() == before.len()
                &&& forall|i: int| 0 <= i < chances.len() ==> chances[i] < UNIT
                &&& child@ == #[trigger] mutated(before, config.mutation_probability, chances)
            };
        assert(child@ == offspring(parent1@, parent2@, *config, chance, point, chances));
    }
}

} // verus!
