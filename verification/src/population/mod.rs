//! The population under evolution: the fitness of its individuals, the
//! selection of parents by tournament, and the step from one generation to
//! the next.

pub mod config;
pub mod individual;
pub mod random_vec;

use crate::consts::Number;
use crate::linalg::dot;
use crate::linalg::dot_fits;
use crate::linalg::is_first_max;
use crate::linalg::NumberMatrix;
use crate::linalg::NumberVector;
use crate::population::config::Config;
use crate::population::individual::is_offspring;
use crate::population::individual::lemma_offspring_shape;
use crate::population::individual::new_individual;
use crate::population::random_vec::is_binary;
use crate::population::random_vec::is_drawn_selection;
use crate::population::random_vec::is_selection;
use crate::population::random_vec::random_vec;
use crate::random::gen_below;
use crate::random::thread_rng;
use crate::scenario::lemma_dot_fits;
use crate::scenario::Scenario;
use vstd::prelude::*;

verus! {

/// The fitness of an individual: the total cost of the objects it picks if
/// their total weight and their total size are within the budgets, else 0.
pub open spec fn fitness(genes: Seq<i32>, scenario: Scenario) -> int {
    if dot(genes, scenario.weights@) <= scenario.max_weight && dot(genes, scenario.sizes@)
        <= scenario.max_size {
        dot(genes, scenario.costs@)
    } else {
        0
    }
}

/// The fitness of each individual of `generation`.
pub open spec fn fitness_of(generation: Seq<Seq<i32>>, scenario: Scenario) -> Seq<i32> {
    Seq::new(generation.len(), |i: int| fitness(generation[i], scenario) as i32)
}

/// Every individual of `generation` is a binary vector of `genes` genes.
pub open spec fn is_generation(generation: Seq<Seq<i32>>, genes: nat) -> bool {
    forall|i: int|
        0 <= i < generation.len() ==> (#[trigger] generation[i]).len() == genes && is_binary(
            generation[i],
        )
}

/// The scores with those of the individuals that `selector` leaves out
/// replaced by 0.
pub open spec fn masked(selector: Seq<i32>, scores: Seq<i32>) -> Seq<i32> {
    Seq::new(scores.len(), |i: int| (selector[i] * scores[i]) as i32)
}

/// `winner` can win a tournament of `tournament_size` individuals: for some
/// choice of that many competitors it is the first to hold the greatest
/// masked score.
pub open spec fn is_winner(winner: int, scores: Seq<i32>, tournament_size: nat) -> bool {
    exists|selector: Seq<i32>|
        {
            &&& is_selection(selector, tournament_size, scores.len())
            &&& is_drawn_selection(selector, tournament_size, scores.len())
            &&& is_first_max(#[trigger] masked(selector, scores), winner)
        }
}

/// `best` is the greatest of `scores`.
pub open spec fn is_greatest(best: i32, scores: Seq<i32>) -> bool {
    &&& exists|i: int| 0 <= i < scores.len() && scores[i] == best
    &&& forall|i: int| 0 <= i < scores.len() ==> scores[i] <= best
}

/// The winner among the individuals that `selector` picks scores no less
/// than any of them, where no score is negative.
pub proof fn lemma_winner_is_best(selector: Seq<i32>, scores: Seq<i32>, winner: int)
    requires
        selector.len() == scores.len(),
        is_binary(selector),
        forall|i: int| 0 <= i < scores.len() ==> scores[i] >= 0,
        is_first_max(masked(selector, scores), winner),
    ensures
        0 <= winner < scores.len(),
        forall|i: int| 0 <= i < scores.len() && selector[i] == 1 ==> scores[i] <= scores[winner],
{
    assert forall|i: int| 0 <= i < scores.len() && selector[i] == 1 implies scores[i]
        <= scores[winner] by {
        lemma_masked_entry(selector, scores, i);
    }
}

/// The winner of a tournament is an individual of the population and scores
/// no less than any of the `tournament_size` competitors of some tournament,
/// where no score is negative.
pub proof fn lemma_tournament_winner(scores: Seq<i32>, tournament_size: nat, winner: int)
    requires
        is_winner(winner, scores, tournament_size),
        forall|i: int| 0 <= i < scores.len() ==> scores[i] >= 0,
    ensures
        0 <= winner < scores.len(),
        exists|selector: Seq<i32>|
            {
                &&& #[trigger] is_selection(selector, tournament_size, scores.len())
                &&& forall|i: int|
                    0 <= i < scores.len() && selector[i] == 1 ==> scores[i] <= scores[winner]
            },
{
    let selector = choose|selector: Seq<i32>|
        {
            &&& is_selection(selector, tournament_size, scores.len())
            &&& is_drawn_selection(selector, tournament_size, scores.len())
            &&& is_first_max(#[trigger] masked(selector, scores), winner)
        };
    lemma_winner_is_best(selector, scores, winner);
}

/// The competitors decide who wins a tournament: one choice of competitors
/// has one winner.
pub proof fn lemma_winner_is_determined(
    selector: Seq<i32>,
    scores: Seq<i32>,
    first: int,
    second: int,
)
    requires
        is_first_max(masked(selector, scores), first),
        is_first_max(masked(selector, scores), second),
    ensures
        first == second,
{
    let shown = masked(selector, scores);
    if first < second {
        assert(shown[first] < shown[second]);
        assert(shown[second] <= shown[first]);
    }
    if second < first {
        assert(shown[second] < shown[first]);
        assert(shown[first] <= shown[second]);
    }
}

/// An individual that exceeds the budget of weight or the budget of size has
/// the fitness 0, whatever it costs.
pub proof fn lemma_over_budget_scores_zero(genes: Seq<i32>, scenario: Scenario)
    requires
        dot(genes, scenario.weights@) > scenario.max_weight || dot(genes, scenario.sizes@)
            > scenario.max_size,
    ensures
        fitness(genes, scenario) == 0,
{
}

/// The fitness of a binary individual is a `Number`, where the scenario is
/// well formed.
pub proof fn lemma_fitness_fits(genes: Seq<i32>, scenario: Scenario)
    requires
        scenario.well_formed(),
        genes.len() == scenario.number_of_objects,
        is_binary(genes),
    ensures
        i32::MIN <= fitness(genes, scenario) <= i32::MAX,
{
    lemma_dot_fits(genes, scenario.costs@);
    assert(genes.take(genes.len() as int) =~= genes);
    assert(scenario.costs@.take(genes.len() as int) =~= scenario.costs@);
}

/// The best fitness of a generation is 0 or the total cost of one of its
/// individuals that keeps within both budgets.
pub proof fn lemma_best_keeps_within_budgets(
    best: i32,
    generation: Seq<Seq<i32>>,
    scenario: Scenario,
)
    requires
        scenario.well_formed(),
        is_generation(generation, scenario.number_of_objects as nat),
        is_greatest(best, fitness_of(generation, scenario)),
    ensures
        best == 0 || exists|i: int|
            {
                &&& 0 <= i < generation.len()
                &&& dot(#[trigger] generation[i], scenario.weights@) <= scenario.max_weight
                &&& dot(generation[i], scenario.sizes@) <= scenario.max_size
                &&& dot(generation[i], scenario.costs@) == best
            },
{
    let scores = fitness_of(generation, scenario);
    let i = choose|i: int| 0 <= i < scores.len() && scores[i] == best;
    lemma_fitness_fits(generation[i], scenario);
}

/// A number times a flag is the number where the flag is 1, and 0 where it
/// is 0.
proof fn lemma_flagged(value: int, flag: int)
    requires
        flag == 0 || flag == 1,
    ensures
        value * flag == if flag == 1 {
            value
        } else {
            0
        },
{
}

/// A masked score is the score where the selector holds 1, and 0 where it
/// holds 0.
pub proof fn lemma_masked_entry(selector: Seq<i32>, scores: Seq<i32>, i: int)
    requires
        selector.len() == scores.len(),
        is_binary(selector),
        0 <= i < scores.len(),
    ensures
        masked(selector, scores)[i] == if selector[i] == 1 {
            scores[i]
        } else {
            0
        },
{
}

/// For each total, 1 if it is within the limit and 0 if it exceeds it.
fn within(totals: &NumberVector, limit: Number) -> (flags: NumberVector)
    ensures
        flags@.len() == totals@.len(),
        forall|i: int|
            0 <= i < totals@.len() ==> flags@[i] == if totals@[i] <= limit {
                1i32
            } else {
                0i32
            },
{
    let mut flags: Vec<Number> = totals.to_vec();
    let mut i: usize = 0;
    while i < flags.len()
        invariant
            i <= flags@.len(),
            flags@.len() == totals@.len(),
            forall|j: int| i <= j < flags@.len() ==> flags@[j] == totals@[j],
            forall|j: int|
                0 <= j < i ==> flags@[j] == if totals@[j] <= limit {
                    1i32
                } else {
                    0i32
                },
        decreases flags@.len() - i,
    {
        let flag: Number = if flags[i] <= limit {
            1
        } else {
            0
        };
        flags.set(i, flag);
        i += 1;
    }
    NumberVector::from_vec(flags)
}

/// The fitness of each individual of `population`: its total cost, or 0 if
/// its total weight or its total size exceeds the budget.
pub fn evaluate_population(population: &NumberMatrix, scenario: &Scenario) -> (scores:
    NumberVector)
    requires
        scenario.well_formed(),
        population.width() == scenario.number_of_objects,
        is_generation(population@, population.width()),
    ensures
        scores@ == fitness_of(population@, *scenario),
        forall|i: int|
            0 <= i < population@.len() ==> #[trigger] scores@[i] == fitness(
                population@[i],
                *scenario,
            ),
        forall|i: int|
            0 <= i < population@.len() && (dot(population@[i], scenario.weights@)
                > scenario.max_weight || dot(population@[i], scenario.sizes@) > scenario.max_size)
                ==> #[trigger] scores@[i] == 0,
{
    proof {
        assert forall|i: int| 0 <= i < population@.len() implies {
            &&& dot_fits(#[trigger] population@[i], scenario.weights@)
            &&& dot_fits(population@[i], scenario.sizes@)
            &&& dot_fits(population@[i], scenario.costs@)
        } by {
            lemma_dot_fits(population@[i], scenario.weights@);
            lemma_dot_fits(population@[i], scenario.sizes@);
            lemma_dot_fits(population@[i], scenario.costs@);
        }
    }
    // The total weight and the total size of each individual, turned into
    // the mark of those that keep within the budget.
    let weights: NumberVector = within(
        &population.mul_vector(&scenario.weights),
        scenario.max_weight,
    );
    let sizes: NumberVector = within(&population.mul_vector(&scenario.sizes), scenario.max_size);
    let mut costs: NumberVector = population.mul_vector(&scenario.costs);

    let ghost totals = costs@;
    costs.component_mul_assign(&weights);

    let ghost weighed = costs@;
    costs.component_mul_assign(&sizes);

    assert forall|i: int| 0 <= i < population@.len() implies #[trigger] costs@[i] == fitness(
        population@[i],
        *scenario,
    ) by {
        lemma_flagged(totals[i] as int, weights@[i] as int);
        lemma_flagged(weighed[i] as int, sizes@[i] as int);
    }
    costs
}

/// The first individual to hold the greatest score among those that
/// `selector` picks, the scores of the others counted as 0.
pub fn select(selector: NumberVector, scores: &NumberVector) -> (best_idx: usize)
    requires
        selector@.len() == scores@.len(),
        scores@.len() > 0,
        is_binary(selector@),
    ensures
        is_first_max(masked(selector@, scores@), best_idx as int),
{
    let mut selector = selector;
    let ghost picked = selector@;
    // Filter selected individuals
    selector.component_mul_assign(scores);
    assert(selector@ =~= masked(picked, scores@));
    let (best_idx, _) = selector.argmax();
    best_idx
}

/// Selects an individual by tournament: of `tournament_size` individuals
/// picked at random the one with the greatest score wins, the first of them
/// where several hold it. Returns the winner's index.
pub fn tournament(scores: &NumberVector, tournament_size: usize) -> (best_idx: usize)
    requires
        1 <= tournament_size <= scores@.len(),
    ensures
        best_idx < scores@.len(),
        is_winner(best_idx as int, scores@, tournament_size as nat),
{
    let selector: NumberVector = random_vec(tournament_size, scores.nrows());
    select(selector, scores)
}

/// `child` can be bred from `generation`: it is the offspring of two winners
/// of tournaments held on `scores`.
pub open spec fn is_bred(
    child: Seq<i32>,
    generation: Seq<Seq<i32>>,
    scores: Seq<i32>,
    config: Config,
) -> bool {
    exists|parent1: int, parent2: int|
        {
            &&& is_winner(parent1, scores, config.tournament_size as nat)
            &&& is_winner(parent2, scores, config.tournament_size as nat)
            &&& #[trigger] is_offspring(
                child,
                generation[parent1],
                #[trigger] generation[parent2],
                config,
            )
        }
}

/// `next` can follow `generation`: it has as many individuals, each of them
/// bred from `generation` by tournaments on the fitness.
pub open spec fn succeeds(
    next: Seq<Seq<i32>>,
    generation: Seq<Seq<i32>>,
    scenario: Scenario,
    config: Config,
) -> bool {
    &&& next.len() == generation.len()
    &&& forall|i: int|
        0 <= i < next.len() ==> is_bred(
            #[trigger] next[i],
            generation,
            fitness_of(generation, scenario),
            config,
        )
}

/// One gene in this many of a random population is 1.
pub const ONE_IN: usize = 11;

/// The gene that a draw below `ONE_IN` makes: 1 for the draw 1, and 0 for
/// every other.
pub open spec fn drawn_gene(drawn: usize) -> i32 {
    if drawn == 1 {
        1
    } else {
        0
    }
}

/// `population` is the random population that a run of draws makes: a draw
/// for every gene, each below `ONE_IN`, taken column by column.
pub open spec fn is_drawn_population(
    population: Seq<Seq<i32>>,
    population_size: nat,
    number_of_objects: nat,
    draws: Seq<usize>,
) -> bool {
    &&& draws.len() == population_size * number_of_objects
    &&& forall|k: int| 0 <= k < draws.len() ==> #[trigger] draws[k] < ONE_IN
    &&& population.len() == population_size
    &&& forall|i: int, j: int|
        0 <= i < population_size && 0 <= j < number_of_objects ==> (#[trigger] population[i]).len()
            == number_of_objects && #[trigger] population[i][j] == drawn_gene(
            draws[i + j * population_size],
        )
}

/// The draws decide what the random population is: one run of draws makes
/// one population.
pub proof fn lemma_drawn_population_is_determined(
    first: Seq<Seq<i32>>,
    second: Seq<Seq<i32>>,
    population_size: nat,
    number_of_objects: nat,
    draws: Seq<usize>,
)
    requires
        is_drawn_population(first, population_size, number_of_objects, draws),
        is_drawn_population(second, population_size, number_of_objects, draws),
        number_of_objects > 0,
    ensures
        first == second,
{
    assert forall|i: int| 0 <= i < population_size implies #[trigger] first[i] == second[i] by {
        assert(first[i][0] == second[i][0]);
        assert forall|j: int| 0 <= j < number_of_objects implies first[i][j] == second[i][j] by {
            assert(first[i][j] == drawn_gene(draws[i + j * population_size]));
            assert(second[i][j] == drawn_gene(draws[i + j * population_size]));
        }
        assert(first[i] =~= second[i]);
    }
    assert(first =~= second);
}

/// The gene that a draw below `ONE_IN` makes.
pub fn gene_of(drawn: usize) -> (gene: Number)
    ensures
        gene == drawn_gene(drawn),
{
    if drawn == 1 {
        1
    } else {
        0
    }
}

/// Generates and returns a random population of the given size.
pub fn generate_random_population(population_size: usize, number_of_objects: usize) -> (population:
    NumberMatrix)
    requires
        population_size * number_of_objects <= usize::MAX,
    ensures
        population@.len() == population_size,
        population.width() == number_of_objects,
        is_generation(population@, number_of_objects as nat),
        exists|draws: Seq<usize>| #[trigger]
            is_drawn_population(
                population@,
                population_size as nat,
                number_of_objects as nat,
                draws,
            ),
{
    let cells: usize = population_size * number_of_objects;
    let mut rng = thread_rng();
    let mut vec: Vec<Number> = Vec::new();
    let ghost mut draws: Seq<usize> = Seq::empty();
    let mut i: usize = 0;
    while i < cells
        invariant
            i <= cells,
            vec@.len() == i,
            draws.len() == i,
            forall|k: int| 0 <= k < i ==> #[trigger] draws[k] < ONE_IN,
            forall|k: int| 0 <= k < i ==> #[trigger] vec@[k] == drawn_gene(draws[k]),
        decreases cells - i,
    {
        let drawn: usize = gen_below(&mut rng, ONE_IN);
        vec.push(gene_of(drawn));
        proof {
            draws = draws.push(drawn);
        }
        i += 1;
    }
    let ghost data = vec@;
    let population = NumberMatrix::from_vec(population_size, number_of_objects, vec);
    assert forall|i: int, j: int|
        0 <= i < population_size && 0 <= j < number_of_objects implies (
    #[trigger] population@[i]).len() == number_of_objects && #[trigger] population@[i][j]
        == drawn_gene(draws[i + j * population_size]) by {
        assert(0 <= i + j * population_size < population_size * number_of_objects)
            by (nonlinear_arith)
            requires
                0 <= i < population_size,
                0 <= j < number_of_objects,
        ;
        assert(population@[i][j] == data[i + j * population_size]);
    }
    assert(is_drawn_population(
        population@,
        population_size as nat,
        number_of_objects as nat,
        draws,
    ));
    population
}

/// Fills `next_population` with children of `population` and returns the
/// best score of `population`. Each child comes of two parents, each the
/// winner of a tournament of its own on the scores of `population`.
pub fn generate_evolved_population(
    population: &NumberMatrix,
    next_population: &mut NumberMatrix,
    scenario: &Scenario,
    population_config: &Config,
) -> (best_score: Number)
    requires
        scenario.well_formed(),
        population_config.valid(),
        population@.len() == population_config.population_size,
        population.width() == scenario.number_of_objects,
        is_generation(population@, population.width()),
        old(next_population)@.len() == population@.len(),
        old(next_population).width() == population.width(),
    ensures
        final(next_population).width() == population.width(),
        is_generation(final(next_population)@, population.width()),
        succeeds(final(next_population)@, population@, *scenario, *population_config),
        is_greatest(best_score, fitness_of(population@, *scenario)),
{
    let scores: NumberVector = evaluate_population(population, scenario);

    let (_, best_score) = scores.argmax();

    let individuals: usize = population.nrows();
    let genes: usize = population.ncols();
    let mut rng = thread_rng();
    let mut parent1: Vec<Number> = vec![0; genes];
    let mut parent2: Vec<Number> = vec![0; genes];
    let mut child: Vec<Number> = vec![0; genes];
    let mut row: usize = 0;
    while row < individuals
        invariant
            row <= individuals,
            individuals == population@.len(),
            genes == population.width(),
            genes > 0,
            1 <= population_config.tournament_size <= individuals,
            is_generation(population@, population.width()),
            scores@ == fitness_of(population@, *scenario),
            next_population@.len() == individuals,
            next_population.width() == genes,
            parent1@.len() == genes,
            parent2@.len() == genes,
            child@.len() == genes,
            forall|i: int|
                0 <= i < row ==> {
                    &&& (#[trigger] next_population@[i]).len() == genes
                    &&& is_binary(next_population@[i])
                    &&& is_bred(next_population@[i], population@, scores@, *population_config)
                },
        decreases individuals - row,
    {
        let first: usize = tournament(&scores, population_config.tournament_size);
        let second: usize = tournament(&scores, population_config.tournament_size);

        population.copy_row(first, &mut parent1);
        population.copy_row(second, &mut parent2);

        new_individual(&mut child, &parent1, &parent2, &mut rng, population_config);
        proof {
            lemma_offspring_shape(child@, parent1@, parent2@, *population_config);
        }
        next_population.set_row(row, &child);
        row += 1;
    }
    best_score
}

/// Why a population cannot be made.
#[derive(Debug, PartialEq, Eq, Structural)]
pub enum PopulationError {
    /// The tournament size is 0 or more than the population size.
    ConfigInvalid,
    /// The scenario has no object, or one of its vectors has not one entry
    /// per object.
    ScenarioMalformed,
    /// Some choice of objects has a total that is no `Number`, or the
    /// population has more genes than memory can address.
    ScaleTooLarge,
}

/// A population under evolution: the current generation, and the scenario
/// and configuration it evolves by.
#[derive(Debug)]
pub struct Population {
    scenario: Scenario,
    config: Config,
    population: NumberMatrix,
    next_population: NumberMatrix,
}

/// What a population holds.
pub struct PopulationView {
    pub scenario: Scenario,
    pub config: Config,
    /// The individuals of the current generation, each a vector of genes.
    pub generation: Seq<Seq<i32>>,
}

impl PopulationView {
    /// The scenario and the configuration are sound, and the generation has
    /// the configured number of binary individuals, each with one gene per
    /// object.
    pub open spec fn well_formed(self) -> bool {
        &&& self.scenario.well_formed()
        &&& self.config.valid()
        &&& self.generation.len() == self.config.population_size
        &&& is_generation(self.generation, self.scenario.number_of_objects as nat)
    }
}

impl View for Population {
    type V = PopulationView;

    closed spec fn view(&self) -> PopulationView {
        PopulationView {
            scenario: self.scenario,
            config: self.config,
            generation: self.population@,
        }
    }
}

impl Population {
    /// The population is as `new` makes it and `evolve` keeps it: what it
    /// holds is well formed, and the buffer for the next generation has the
    /// shape of the current one.
    pub closed spec fn well_formed(&self) -> bool {
        &&& self@.well_formed()
        &&& self.population.width() == self.scenario.number_of_objects
        &&& self.next_population@.len() == self.population@.len()
        &&& self.next_population.width() == self.population.width()
    }

    /// What a well-formed population holds is well formed.
    pub proof fn lemma_well_formed_view(&self)
        requires
            self.well_formed(),
        ensures
            self@.well_formed(),
    {
    }

    /// Why no population can be made of the scenario and the configuration,
    /// if none can: the first of an invalid configuration, an inconsistent
    /// scenario, and numbers too large.
    pub open spec fn refusal(scenario: Scenario, config: Config) -> Option<PopulationError> {
        if !config.valid() {
            Some(PopulationError::ConfigInvalid)
        } else if !scenario.consistent() {
            Some(PopulationError::ScenarioMalformed)
        } else if !scenario.bounded() || config.population_size * scenario.number_of_objects
            > usize::MAX {
            Some(PopulationError::ScaleTooLarge)
        } else {
            None
        }
    }

    /// A population of random individuals for the given scenario, unless the
    /// configuration or the scenario is unfit.
    pub fn new(scenario: Scenario, config: Config) -> (made: Result<Population, PopulationError>)
        ensures
            match made {
                Ok(population) => {
                    &&& Population::refusal(scenario, config).is_none()
                    &&& population@.scenario == scenario
                    &&& population@.config == config
                    &&& population@.well_formed()
                    &&& population.well_formed()
                    &&& exists|draws: Seq<usize>| #[trigger]
                        is_drawn_population(
                            population@.generation,
                            config.population_size as nat,
                            scenario.number_of_objects as nat,
                            draws,
                        )
                },
                Err(error) => Population::refusal(scenario, config) == Some(error),
            },
    {
        if !config.is_valid() {
            return Err(PopulationError::ConfigInvalid);
        }
        if !scenario.is_consistent() {
            return Err(PopulationError::ScenarioMalformed);
        }
        if !scenario.is_bounded() {
            return Err(PopulationError::ScaleTooLarge);
        }
        let genes: usize = scenario.number_of_objects as usize;
        let cells: usize = match config.population_size.checked_mul(genes) {
            Some(cells) => cells,
            None => {
                return Err(PopulationError::ScaleTooLarge);
            },
        };
        let population = generate_random_population(config.population_size, genes);

        // The next generation is written in full before it is read: what
        // fills it here does not matter.
        let next_population = NumberMatrix::from_vec(config.population_size, genes, vec![0; cells]);

        Ok(Population { population, next_population, scenario, config })
    }

    /// Replaces the generation by one bred from it, and returns the best
    /// fitness of the generation replaced.
    pub fn evolve(&mut self) -> (best_individual: Number)
        requires
            old(self).well_formed(),
        ensures
            final(self)@.scenario == old(self)@.scenario,
            final(self)@.config == old(self)@.config,
            final(self)@.well_formed(),
            final(self).well_formed(),
            succeeds(
                final(self)@.generation,
                old(self)@.generation,
                old(self)@.scenario,
                old(self)@.config,
            ),
            is_greatest(best_individual, fitness_of(old(self)@.generation, old(self)@.scenario)),
    {
        let best_individual = generate_evolved_population(
            &self.population,
            &mut self.next_population,
            &self.scenario,
            &self.config,
        );

        std::mem::swap(&mut self.population, &mut self.next_population);

        best_individual
    }

    /// The number of individuals of the generation.
    pub fn size(&self) -> (size: usize)
        ensures
            size == self@.generation.len(),
    {
        self.population.nrows()
    }

    /// The genes of the individual at `index`, if the generation has that
    /// many individuals.
    pub fn individual(&self, index: usize) -> (genes: Option<Vec<Number>>)
        ensures
            genes.is_some() <==> index < self@.generation.len(),
            genes.is_some() ==> genes.unwrap()@ == self@.generation[index as int],
    {
        if index < self.population.nrows() {
            let mut genes: Vec<Number> = vec![0; self.population.ncols()];
            self.population.copy_row(index, &mut genes);
            Some(genes)
        } else {
            None
        }
    }
}

} // verus!
