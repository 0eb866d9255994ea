use genet::linalg::NumberMatrix;
use genet::linalg::NumberVector;
use genet::population::config::Config;
use genet::population::config::Probability;
use genet::population::evaluate_population;
use genet::population::generate_evolved_population;
use genet::population::gene_of;
use genet::population::generate_random_population;
use genet::population::select;
use genet::population::tournament;
use genet::population::Population;
use genet::population::PopulationError;
use genet::scenario::Scenario;

fn scenario() -> Scenario {
    Scenario {
        weights: NumberVector::from_vec(vec![2, 3, 4, 5, 1]),
        sizes: NumberVector::from_vec(vec![1, 1, 1, 1, 1]),
        costs: NumberVector::from_vec(vec![10, 20, 30, 40, 5]),
        number_of_objects: 5,
        max_weight: 8,
        max_size: 3,
    }
}

fn config() -> Config {
    Config {
        mutation_probability: Probability::from_ratio(5, 100).unwrap(),
        crossover_probability: Probability::from_ratio(7, 10).unwrap(),
        population_size: 20,
        tournament_size: 5,
    }
}

fn fitness(genes: &Vec<i32>) -> i32 {
    let weights = [2, 3, 4, 5, 1];
    let costs = [10, 20, 30, 40, 5];
    let weight: i32 = (0..5).map(|i| genes[i] * weights[i]).sum();
    let size: i32 = genes.iter().sum();
    let cost: i32 = (0..5).map(|i| genes[i] * costs[i]).sum();
    if weight <= 8 && size <= 3 {
        cost
    } else {
        0
    }
}

/// The matrix whose rows are the given individuals.
fn matrix(rows: &[[i32; 5]]) -> NumberMatrix {
    let mut data = Vec::new();
    for column in 0..5 {
        for row in rows {
            data.push(row[column]);
        }
    }
    NumberMatrix::from_vec(rows.len(), 5, data)
}

#[test]
fn evaluate_scores_the_cost_of_what_fits_and_zero_of_what_does_not() {
    let population = matrix(&[
        [0, 0, 0, 0, 0],
        [1, 0, 0, 0, 0],
        [0, 1, 0, 1, 0],
        [1, 0, 0, 1, 1],
        // weight 9 exceeds 8
        [0, 0, 1, 1, 0],
        // size 4 exceeds 3, weight 7 does not exceed 8
        [1, 1, 0, 0, 1],
        [1, 1, 1, 0, 1],
        // both exceed
        [1, 1, 1, 1, 1],
        // weight 8 and size 3 are within the budgets
        [0, 1, 1, 0, 1],
    ]);
    let scores = evaluate_population(&population, &scenario());
    assert_eq!(scores.to_vec(), vec![0, 10, 60, 55, 0, 35, 0, 0, 55]);
}

#[test]
fn evaluate_scores_zero_for_size_alone() {
    let mut problem = scenario();
    problem.max_weight = 100;
    let population = matrix(&[[1, 1, 1, 1, 0], [1, 1, 1, 0, 0], [1, 1, 1, 1, 1]]);
    let scores = evaluate_population(&population, &problem);
    assert_eq!(scores.to_vec(), vec![0, 60, 0]);
}

#[test]
fn evaluate_scores_zero_for_weight_alone() {
    let mut problem = scenario();
    problem.max_size = 100;
    let population = matrix(&[[1, 1, 1, 1, 0], [1, 1, 0, 0, 1], [0, 0, 1, 1, 0]]);
    let scores = evaluate_population(&population, &problem);
    assert_eq!(scores.to_vec(), vec![0, 35, 0]);
}

#[test]
fn select_takes_the_best_of_the_selected() {
    let scores = NumberVector::from_vec(vec![50, 10, 40, 30, 20]);
    let selector = NumberVector::from_vec(vec![0, 1, 1, 1, 0]);
    assert_eq!(select(selector, &scores), 2);
    let selector = NumberVector::from_vec(vec![0, 1, 0, 0, 1]);
    assert_eq!(select(selector, &scores), 4);
    let selector = NumberVector::from_vec(vec![1, 1, 1, 1, 1]);
    assert_eq!(select(selector, &scores), 0);
}

#[test]
fn select_takes_the_first_of_equals() {
    let scores = NumberVector::from_vec(vec![10, 40, 40, 40, 20]);
    let selector = NumberVector::from_vec(vec![1, 0, 1, 1, 1]);
    assert_eq!(select(selector, &scores), 2);
}

#[test]
fn select_takes_the_first_individual_where_all_the_selected_score_zero() {
    let scores = NumberVector::from_vec(vec![10, 0, 0, 40, 0]);
    let selector = NumberVector::from_vec(vec![0, 1, 1, 0, 1]);
    assert_eq!(select(selector, &scores), 0);
}

#[test]
fn tournament_returns_an_index_of_the_population() {
    let scores = NumberVector::from_vec(vec![5, 0, 60, 55, 0, 35, 0, 0, 55, 10]);
    for size in 1..=10 {
        for _ in 0..50 {
            assert!(tournament(&scores, size) < 10);
        }
    }
}

#[test]
fn tournament_of_the_whole_population_is_won_by_the_first_best() {
    let scores = NumberVector::from_vec(vec![5, 0, 60, 55, 60, 35]);
    for _ in 0..20 {
        assert_eq!(tournament(&scores, 6), 2);
    }
}

#[test]
fn tournament_winner_is_no_worse_than_enough_others() {
    let values = vec![5, 0, 60, 55, 0, 35, 0, 0, 55, 10];
    let scores = NumberVector::from_vec(values.clone());
    for size in 1..=10 {
        for _ in 0..50 {
            let winner = tournament(&scores, size);
            let others = (0..10).filter(|i| *i != winner && values[*i] <= values[winner]).count();
            assert!(others >= size - 1);
        }
    }
}

#[test]
fn random_population_is_binary_and_of_the_shape_asked_for() {
    let population = generate_random_population(7, 13);
    assert_eq!(population.nrows(), 7);
    assert_eq!(population.ncols(), 13);
    for row in 0..7 {
        for column in 0..13 {
            let gene = population.get(row, column);
            assert!(gene == 0 || gene == 1);
        }
    }
}

#[test]
fn random_population_may_have_no_individual_or_no_gene() {
    assert_eq!(generate_random_population(0, 4).nrows(), 0);
    assert_eq!(generate_random_population(0, 4).ncols(), 4);
    assert_eq!(generate_random_population(3, 0).nrows(), 3);
    assert_eq!(generate_random_population(3, 0).ncols(), 0);
}

#[test]
fn evolved_population_overwrites_the_whole_buffer_and_returns_the_best_score() {
    let population = matrix(&[
        [1, 0, 0, 0, 0],
        [0, 1, 0, 1, 0],
        [1, 1, 1, 1, 1],
        [0, 0, 0, 0, 1],
    ]);
    let mut next = NumberMatrix::from_vec(4, 5, vec![7; 20]);
    let mut setup = config();
    setup.population_size = 4;
    setup.tournament_size = 2;
    let best = generate_evolved_population(&population, &mut next, &scenario(), &setup);
    assert_eq!(best, 60);
    assert_eq!(next.nrows(), 4);
    assert_eq!(next.ncols(), 5);
    for row in 0..4 {
        for column in 0..5 {
            let gene = next.get(row, column);
            assert!(gene == 0 || gene == 1);
        }
    }
}

#[test]
fn population_is_refused_for_an_invalid_tournament_size() {
    let mut setup = config();
    setup.tournament_size = 0;
    assert_eq!(Population::new(scenario(), setup).unwrap_err(), PopulationError::ConfigInvalid);
    let mut setup = config();
    setup.tournament_size = 21;
    assert_eq!(Population::new(scenario(), setup).unwrap_err(), PopulationError::ConfigInvalid);
}

#[test]
fn population_is_refused_for_an_inconsistent_scenario() {
    let mut problem = scenario();
    problem.number_of_objects = 4;
    assert_eq!(
        Population::new(problem, config()).unwrap_err(),
        PopulationError::ScenarioMalformed
    );
    let mut problem = scenario();
    problem.costs = NumberVector::from_vec(vec![10, 20, 30, 40]);
    assert_eq!(
        Population::new(problem, config()).unwrap_err(),
        PopulationError::ScenarioMalformed
    );
    let empty = Scenario {
        weights: NumberVector::from_vec(Vec::new()),
        sizes: NumberVector::from_vec(Vec::new()),
        costs: NumberVector::from_vec(Vec::new()),
        number_of_objects: 0,
        max_weight: 8,
        max_size: 3,
    };
    assert_eq!(Population::new(empty, config()).unwrap_err(), PopulationError::ScenarioMalformed);
}

#[test]
fn population_is_refused_for_totals_that_overflow() {
    let mut problem = scenario();
    problem.costs = NumberVector::from_vec(vec![i32::MAX, 1, 0, 0, 0]);
    assert_eq!(Population::new(problem, config()).unwrap_err(), PopulationError::ScaleTooLarge);
    let mut problem = scenario();
    problem.weights = NumberVector::from_vec(vec![i32::MIN, -1, 0, 0, 0]);
    assert_eq!(Population::new(problem, config()).unwrap_err(), PopulationError::ScaleTooLarge);
}

#[test]
fn population_accepts_totals_that_just_fit() {
    let mut problem = scenario();
    problem.costs = NumberVector::from_vec(vec![i32::MAX - 1, 1, 0, -5, i32::MIN + 5]);
    assert!(Population::new(problem, config()).is_ok());
}

#[test]
fn population_is_refused_before_the_scenario_for_its_configuration() {
    let mut problem = scenario();
    problem.number_of_objects = 4;
    let mut setup = config();
    setup.tournament_size = 0;
    assert_eq!(Population::new(problem, setup).unwrap_err(), PopulationError::ConfigInvalid);
}

#[test]
fn new_population_has_the_configured_size_and_binary_individuals() {
    let population = Population::new(scenario(), config()).unwrap();
    assert_eq!(population.size(), 20);
    for index in 0..20 {
        let genes = population.individual(index).unwrap();
        assert_eq!(genes.len(), 5);
        assert!(genes.iter().all(|gene| *gene == 0 || *gene == 1));
    }
    assert!(population.individual(20).is_none());
}

#[test]
fn evolve_returns_the_best_fitness_of_the_generation_it_replaces() {
    let mut population = Population::new(scenario(), config()).unwrap();
    let mut best_ever = 0;
    for _ in 0..50 {
        let expected = (0..20).map(|i| fitness(&population.individual(i).unwrap())).max().unwrap();
        let best = population.evolve();
        assert_eq!(best, expected);
        // No choice of objects within both budgets costs more than 60.
        assert!(best >= 0 && best <= 60);
        let before = best_ever;
        best_ever = best_ever.max(best);
        assert!(best_ever >= before);
        assert_eq!(population.size(), 20);
        for index in 0..20 {
            let genes = population.individual(index).unwrap();
            assert_eq!(genes.len(), 5);
            assert!(genes.iter().all(|gene| *gene == 0 || *gene == 1));
        }
    }
}

#[test]
fn evolve_of_a_single_individual_breeds_it_with_itself() {
    let mut setup = config();
    setup.population_size = 1;
    setup.tournament_size = 1;
    setup.mutation_probability = Probability::zero();
    let mut population = Population::new(scenario(), setup).unwrap();
    let genes = population.individual(0).unwrap();
    let best = population.evolve();
    assert_eq!(best, fitness(&genes));
    assert_eq!(population.individual(0).unwrap(), genes);
}

#[test]
fn gene_of_a_draw_is_one_for_the_draw_one_alone() {
    assert_eq!(gene_of(1), 1);
    assert_eq!(gene_of(0), 0);
    for drawn in 2..11 {
        assert_eq!(gene_of(drawn), 0);
    }
}

#[test]
fn random_population_holds_about_one_gene_in_eleven() {
    let population = generate_random_population(100, 110);
    let mut ones = 0;
    for row in 0..100 {
        for column in 0..110 {
            ones += population.get(row, column);
        }
    }
    // 1000 of 11000 genes are 1 on average.
    assert!(ones > 800 && ones < 1200, "{} genes are 1", ones);
}
