use wormsim::trainer::{select_ranking, Trainer, POOL_SIZE, POP_SIZE};
use wormsim::world::Food;

fn layout() -> Vec<Food> {
    vec![
        Food { x: 12_000_000, y: 7_000_000, value: 5_000_000 },
        Food { x: 3_000_000, y: 2_000_000, value: 9_000_000 },
        Food { x: 46_000_000, y: 80_000_000, value: 2_000_000 },
        Food { x: 90_000_000, y: 14_000_000, value: 7_000_000 },
    ]
}

#[test]
fn population_size_is_invariant() {
    // The reference population of 50 never grows or shrinks, generation
    // after generation.
    let mut t = Trainer::new(layout(), 99);
    assert_eq!(t.population.len(), POP_SIZE);
    assert_eq!(POP_SIZE, 50);
    for _ in 0..3 {
        t.step_generation();
        assert_eq!(t.population.len(), 50);
    }
}

#[test]
fn best_fitness_never_decreases() {
    let mut t = Trainer::new(layout(), 4242);
    let mut prev = t.best_fitness;
    for _ in 0..4 {
        t.step_generation();
        assert!(t.best_fitness >= prev);
        prev = t.best_fitness;
    }
    // After the first scored generation a best exists.
    assert!(t.best_fitness >= 0);
}

#[test]
fn best_brain_survives_into_next_generation() {
    // Elitism: the first slot of every new population is the best-ever
    // brain, carried over unchanged.
    let mut t = Trainer::new(layout(), 7);
    for _ in 0..3 {
        t.step_generation();
        assert_eq!(t.population[0], t.best_brain);
    }
}

#[test]
fn initial_population_respects_init_ranges() {
    let t = Trainer::new(layout(), 31337);
    assert_eq!(t.population.len(), 50);
    for b in t.population.iter() {
        assert!(500_000 <= b.food_attraction && b.food_attraction <= 1_000_000);
        assert!(1_000_000 <= b.speed_factor && b.speed_factor <= 3_000_000);
        assert!(200_000 <= b.life_threshold && b.life_threshold <= 800_000);
    }
}

#[test]
fn ranking_sorts_by_fitness_with_stable_ties() {
    // Fitness descending; the two threes keep their original index order.
    let fits: Vec<i64> = vec![3, 1, 3, 2];
    let r = select_ranking(&fits);
    assert_eq!(r, vec![0, 2, 3, 1]);
}

#[test]
fn ranking_of_equal_fitnesses_is_index_order() {
    let fits: Vec<i64> = vec![5, 5, 5];
    let r = select_ranking(&fits);
    assert_eq!(r, vec![0, 1, 2]);
}

#[test]
fn pool_is_a_quarter_of_the_population() {
    assert_eq!(POOL_SIZE, POP_SIZE / 4);
}

#[test]
fn training_is_reproducible_for_a_seed() {
    let mut t1 = Trainer::new(layout(), 2718);
    let mut t2 = Trainer::new(layout(), 2718);
    t1.run(2);
    t2.run(2);
    assert_eq!(t1.best_fitness, t2.best_fitness);
    assert_eq!(t1.best_brain, t2.best_brain);
    assert_eq!(t1.population, t2.population);
    assert_eq!(t1.rng.state, t2.rng.state);
}
