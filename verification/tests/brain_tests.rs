use wormsim::brain::Brain;
use wormsim::rng::Rng64;
use wormsim::world::Food;

fn reference_brain() -> Brain {
    Brain { food_attraction: 1_000_000, speed_factor: 2_000_000, life_threshold: 500_000 }
}

#[test]
fn direction_no_food_on_positive_axis() {
    // Agent at (1.0, 0.0), no food: atan2(0, 1) = 0, advanced by 0.1 rad.
    let brain = reference_brain();
    let mut rng = Rng64::new(7);
    let foods: Vec<Food> = Vec::new();
    let a = brain.direction(1_000_000, 0, &foods, &mut rng);
    assert_eq!(a, 100_000);
    // The no-food branch draws nothing: the random source is untouched.
    assert_eq!(rng.state, 7);
}

#[test]
fn direction_no_food_above_origin() {
    // Agent at (0.0, 1.0): atan2(1, 0) is a quarter turn, advanced by 0.1 rad.
    let brain = reference_brain();
    let mut rng = Rng64::new(0);
    let foods: Vec<Food> = Vec::new();
    let a = brain.direction(0, 1_000_000, &foods, &mut rng);
    assert_eq!(a, 1_570_796 + 100_000);
}

#[test]
fn direction_no_food_at_origin() {
    // The degenerate origin position gets angle 0, advanced by 0.1 rad.
    let brain = reference_brain();
    let mut rng = Rng64::new(3);
    let foods: Vec<Food> = Vec::new();
    let a = brain.direction(0, 0, &foods, &mut rng);
    assert_eq!(a, 100_000);
}

#[test]
fn direction_single_food_straight_ahead() {
    // Agent at the origin, one food at (10.0, 0.0) of value 5.0, full
    // attraction: all weight on one food dead ahead, no randomness left.
    let brain = reference_brain();
    let mut rng = Rng64::new(42);
    let foods = vec![Food { x: 10_000_000, y: 0, value: 5_000_000 }];
    let a = brain.direction(0, 0, &foods, &mut rng);
    assert_eq!(a, 0);
}

#[test]
fn direction_stays_in_full_turn() {
    let brain = Brain { food_attraction: 200_000, speed_factor: 3_000_000, life_threshold: 0 };
    let mut rng = Rng64::new(9001);
    let foods = vec![
        Food { x: 90_000_000, y: 10_000_000, value: 4_000_000 },
        Food { x: 5_000_000, y: 80_000_000, value: 9_000_000 },
    ];
    for wx in [0i64, 30_000_000, 100_000_000] {
        for wy in [0i64, 55_000_000] {
            let a = brain.direction(wx, wy, &foods, &mut rng);
            assert!(0 <= a && a < 6_283_184);
        }
    }
}

#[test]
fn mutate_keeps_hard_bounds() {
    // Whatever is drawn, every parameter stays within its declared clamps.
    for seed in 0..300u64 {
        let mut rng = Rng64::new(seed);
        let mut brain = Brain {
            food_attraction: if seed % 2 == 0 { 0 } else { 1_000_000 },
            speed_factor: if seed % 3 == 0 { 1_000_000 } else { 3_000_000 },
            life_threshold: if seed % 5 == 0 { 0 } else { 1_000_000 },
        };
        brain.mutate(&mut rng);
        assert!(0 <= brain.food_attraction && brain.food_attraction <= 1_000_000);
        assert!(1_000_000 <= brain.speed_factor && brain.speed_factor <= 3_000_000);
        assert!(0 <= brain.life_threshold && brain.life_threshold <= 1_000_000);
    }
}

#[test]
fn crossover_picks_from_parents() {
    let p = Brain { food_attraction: 0, speed_factor: 1_000_000, life_threshold: 0 };
    let q = Brain { food_attraction: 1_000_000, speed_factor: 3_000_000, life_threshold: 900_000 };
    for seed in 0..100u64 {
        let mut rng = Rng64::new(seed);
        let c = Brain::crossover(&p, &q, &mut rng);
        assert!(c.food_attraction == p.food_attraction || c.food_attraction == q.food_attraction);
        assert!(c.speed_factor == p.speed_factor || c.speed_factor == q.speed_factor);
        assert!(c.life_threshold == p.life_threshold || c.life_threshold == q.life_threshold);
    }
}

#[test]
fn direction_is_deterministic_for_equal_state() {
    let brain = Brain { food_attraction: 300_000, speed_factor: 2_500_000, life_threshold: 100_000 };
    let foods = vec![
        Food { x: 20_000_000, y: 30_000_000, value: 2_000_000 },
        Food { x: 70_000_000, y: 5_000_000, value: 8_000_000 },
    ];
    let mut rng1 = Rng64::new(123_456);
    let mut rng2 = Rng64::new(123_456);
    let a1 = brain.direction(40_000_000, 40_000_000, &foods, &mut rng1);
    let a2 = brain.direction(40_000_000, 40_000_000, &foods, &mut rng2);
    assert_eq!(a1, a2);
    assert_eq!(rng1.state, rng2.state);
}
