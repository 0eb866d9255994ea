use genet::population::config::Config;
use genet::population::config::Probability;
use genet::population::individual::crossover;
use genet::population::individual::crossover_at;
use genet::population::individual::mutate;
use genet::population::individual::mutate_gene;
use genet::population::individual::new_individual;
use genet::random::UNIT;

fn config(crossover: Probability, mutation: Probability) -> Config {
    Config {
        mutation_probability: mutation,
        crossover_probability: crossover,
        population_size: 20,
        tournament_size: 5,
    }
}

fn is_spliced(child: &Vec<i32>, parent1: &Vec<i32>, parent2: &Vec<i32>) -> bool {
    (0..parent1.len()).any(|point| {
        child[..point] == parent1[..point] && child[point..] == parent2[point..]
    })
}

#[test]
fn crossover_at_splices_the_parents_at_the_point() {
    let parent1 = vec![1, 1, 1, 1, 1];
    let parent2 = vec![0, 0, 0, 0, 0];
    let half = config(Probability::from_ratio(1, 2).unwrap(), Probability::zero());
    let mut child = vec![7; 5];
    crossover_at(&mut child, &parent1, &parent2, &half, 0, 2);
    assert_eq!(child, vec![1, 1, 0, 0, 0]);
    crossover_at(&mut child, &parent1, &parent2, &half, UNIT / 2, 0);
    assert_eq!(child, vec![0, 0, 0, 0, 0]);
    crossover_at(&mut child, &parent1, &parent2, &half, UNIT / 2, 4);
    assert_eq!(child, vec![1, 1, 1, 1, 0]);
    crossover_at(&mut child, &parent1, &parent2, &half, 17, 5);
    assert_eq!(child, vec![1, 1, 1, 1, 1]);
}

#[test]
fn crossover_at_copies_the_first_parent_when_the_draw_exceeds_the_probability() {
    let parent1 = vec![1, 0, 1, 0];
    let parent2 = vec![0, 1, 0, 1];
    let half = config(Probability::from_ratio(1, 2).unwrap(), Probability::zero());
    let mut child = vec![7; 4];
    crossover_at(&mut child, &parent1, &parent2, &half, UNIT / 2 + 1, 2);
    assert_eq!(child, vec![1, 0, 1, 0]);
    crossover_at(&mut child, &parent1, &parent2, &half, UNIT - 1, 0);
    assert_eq!(child, vec![1, 0, 1, 0]);
}

#[test]
fn crossover_with_probability_zero_copies_the_first_parent_on_every_positive_draw() {
    let parent1 = vec![1, 0, 1, 1, 0, 0];
    let parent2 = vec![0, 1, 0, 0, 1, 1];
    let never = config(Probability::zero(), Probability::zero());
    for chance in [1, 2, 1000, UNIT / 2, UNIT - 1] {
        for point in 0..6 {
            let mut child = vec![7; 6];
            crossover_at(&mut child, &parent1, &parent2, &never, chance, point);
            assert_eq!(child, parent1);
        }
    }
}

#[test]
fn crossover_with_probability_zero_still_happens_on_the_draw_zero() {
    let parent1 = vec![1, 1, 1];
    let parent2 = vec![0, 0, 0];
    let never = config(Probability::zero(), Probability::zero());
    let mut child = vec![7; 3];
    crossover_at(&mut child, &parent1, &parent2, &never, 0, 1);
    assert_eq!(child, vec![1, 0, 0]);
}

#[test]
fn crossover_overwrites_every_gene_of_the_child() {
    let parent1 = vec![1, 0, 1, 1, 0, 0, 1, 0];
    let parent2 = vec![0, 1, 0, 0, 1, 1, 0, 1];
    let often = config(Probability::from_ratio(7, 10).unwrap(), Probability::zero());
    let mut rng = rand::thread_rng();
    for _ in 0..200 {
        let mut child = vec![7; 8];
        crossover(&mut child, &parent1, &parent2, &mut rng, &often);
        assert!(child == parent1 || is_spliced(&child, &parent1, &parent2));
    }
}

#[test]
fn mutate_gene_flips_when_the_probability_meets_the_draw() {
    let tenth = config(Probability::one(), Probability::from_ratio(1, 10).unwrap());
    let threshold = UNIT / 10;
    assert_eq!(mutate_gene(0, &tenth, 0), 1);
    assert_eq!(mutate_gene(1, &tenth, 0), 0);
    assert_eq!(mutate_gene(0, &tenth, threshold), 1);
    assert_eq!(mutate_gene(1, &tenth, threshold), 0);
    assert_eq!(mutate_gene(0, &tenth, threshold + 1), 0);
    assert_eq!(mutate_gene(1, &tenth, threshold + 1), 1);
    assert_eq!(mutate_gene(1, &tenth, UNIT - 1), 1);
}

#[test]
fn mutate_gene_flips_the_lowest_bit_of_any_number() {
    let always = config(Probability::one(), Probability::one());
    assert_eq!(mutate_gene(6, &always, 5), 7);
    assert_eq!(mutate_gene(7, &always, 5), 6);
    assert_eq!(mutate_gene(-3, &always, 5), -4);
    assert_eq!(mutate_gene(-4, &always, 5), -3);
    assert_eq!(mutate_gene(i32::MAX, &always, 5), i32::MAX - 1);
    assert_eq!(mutate_gene(i32::MIN, &always, 5), i32::MIN + 1);
}

#[test]
fn mutate_with_probability_one_flips_every_gene() {
    let always = config(Probability::one(), Probability::one());
    let mut rng = rand::thread_rng();
    let mut individual = vec![1, 0, 0, 1, 1];
    mutate(&mut individual, &mut rng, &always);
    assert_eq!(individual, vec![0, 1, 1, 0, 0]);
}

#[test]
fn mutate_keeps_an_individual_binary() {
    let often = config(Probability::one(), Probability::from_ratio(1, 2).unwrap());
    let mut rng = rand::thread_rng();
    let mut individual = vec![1, 0, 0, 1, 1, 0, 1, 0];
    for _ in 0..100 {
        mutate(&mut individual, &mut rng, &often);
        assert_eq!(individual.len(), 8);
        assert!(individual.iter().all(|gene| *gene == 0 || *gene == 1));
    }
}

#[test]
fn new_individual_without_mutation_is_a_prefix_and_a_suffix_of_its_parents() {
    let parent1 = vec![1, 1, 1, 1, 1, 1];
    let parent2 = vec![0, 0, 0, 0, 0, 0];
    let pure = config(Probability::one(), Probability::zero());
    let mut rng = rand::thread_rng();
    for _ in 0..200 {
        let mut child = vec![7; 6];
        new_individual(&mut child, &parent1, &parent2, &mut rng, &pure);
        // A mutation draw of 0, one in 2^53, would flip a gene even so.
        assert!(is_spliced(&child, &parent1, &parent2));
    }
}

#[test]
fn new_individual_without_crossover_or_mutation_copies_the_first_parent() {
    let parent1 = vec![1, 0, 1, 1, 0];
    let parent2 = vec![0, 1, 0, 0, 1];
    let still = config(Probability::zero(), Probability::zero());
    let mut rng = rand::thread_rng();
    for _ in 0..200 {
        let mut child = vec![7; 5];
        new_individual(&mut child, &parent1, &parent2, &mut rng, &still);
        assert_eq!(child, parent1);
    }
}

#[test]
fn new_individual_of_one_gene_is_binary() {
    let often = config(Probability::from_ratio(7, 10).unwrap(), Probability::from_ratio(1, 2).unwrap());
    let mut rng = rand::thread_rng();
    for _ in 0..50 {
        let mut child = vec![7];
        new_individual(&mut child, &vec![1], &vec![0], &mut rng, &often);
        assert!(child == vec![0] || child == vec![1]);
    }
}
