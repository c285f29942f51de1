use wormsim::brain::Brain;
use wormsim::model::Model;
use wormsim::rng::Rng64;
use wormsim::steer::steer_worms;
use wormsim::world::{Food, Worm};

fn persisted() -> Model {
    Model {
        brain: Brain { food_attraction: 1_000_000, speed_factor: 2_000_000, life_threshold: 500_000 },
        fitness: 12_000_000,
    }
}

#[test]
fn steering_points_at_the_food() {
    // Food straight ahead on the x axis: the unit vector is (1, 0) in
    // micro-units, at base speed for a healthy agent.
    let model = persisted();
    let mut rng = Rng64::new(17);
    let worms = vec![Worm { x: 0, y: 0, life: 900_000, food_consumed: 0 }];
    let foods = vec![Food { x: 10_000_000, y: 0, value: 5_000_000 }];
    let s = steer_worms(&model, &worms, &foods, &mut rng);
    assert_eq!(s.len(), 1);
    assert_eq!(s[0].dir_x, 1_000_000);
    assert_eq!(s[0].dir_y, 0);
    assert_eq!(s[0].speed, 2_000_000);
}

#[test]
fn low_life_boosts_speed() {
    // Under the brain's life threshold the adapter hands out one and a half
    // times the base speed.
    let model = persisted();
    let mut rng = Rng64::new(17);
    let worms = vec![
        Worm { x: 0, y: 0, life: 499_999, food_consumed: 0 },
        Worm { x: 0, y: 0, life: 500_000, food_consumed: 0 },
    ];
    let foods = vec![Food { x: 10_000_000, y: 0, value: 5_000_000 }];
    let s = steer_worms(&model, &worms, &foods, &mut rng);
    assert_eq!(s.len(), 2);
    assert_eq!(s[0].speed, 3_000_000);
    assert_eq!(s[1].speed, 2_000_000);
}

#[test]
fn no_agents_no_steerings() {
    let model = persisted();
    let mut rng = Rng64::new(1);
    let worms: Vec<Worm> = Vec::new();
    let foods = vec![Food { x: 10_000_000, y: 0, value: 5_000_000 }];
    let s = steer_worms(&model, &worms, &foods, &mut rng);
    assert!(s.is_empty());
    assert_eq!(rng.state, 1);
}

#[test]
fn steering_without_food_turns_the_agent() {
    // With no food each agent gets the deterministic slow-rotation heading;
    // at (1, 0) that heading is 0.1 rad.
    let model = persisted();
    let mut rng = Rng64::new(40);
    let worms = vec![Worm { x: 1_000_000, y: 0, life: 1_000_000, food_consumed: 0 }];
    let foods: Vec<Food> = Vec::new();
    let s = steer_worms(&model, &worms, &foods, &mut rng);
    assert_eq!(s.len(), 1);
    // cos(0.1) and sin(0.1) in micro-units, by the crate's circle functions.
    assert!(s[0].dir_x > 990_000);
    assert!(s[0].dir_y > 0 && s[0].dir_y < 110_000);
}
