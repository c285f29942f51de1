use wormsim::brain::Brain;
use wormsim::rng::Rng64;
use wormsim::sim::{evaluate, fitness_of, sim_step};
use wormsim::world::{highest_possible_fitness, lowest_possible_fitness, Food, Worm};

fn reference_brain() -> Brain {
    Brain { food_attraction: 1_000_000, speed_factor: 2_000_000, life_threshold: 500_000 }
}

#[test]
fn step_moves_toward_single_food() {
    // Agent at the origin, food at (10.0, 0.0): the step heads straight for
    // it at speed 2.0 and the distance to the food strictly decreases.
    let brain = reference_brain();
    let mut rng = Rng64::new(11);
    let worm = Worm { x: 0, y: 0, life: 1_000_000, food_consumed: 0 };
    let foods = vec![Food { x: 10_000_000, y: 0, value: 5_000_000 }];
    let (stepped, kept) = sim_step(&brain, &worm, &foods, &mut rng);
    assert_eq!(stepped.x, 2_000_000);
    assert_eq!(stepped.y, 0);
    // 8.0 units left, down from 10.0; the food is out of reach and survives.
    assert_eq!(kept.len(), 1);
    assert_eq!(stepped.food_consumed, 0);
    // Life drained by 0.001 * speed = 0.002.
    assert_eq!(stepped.life, 998_000);
}

#[test]
fn step_consumes_food_under_agent() {
    // The agent lands exactly on the food: distance 0 is under the 2.0
    // radius, so the food is consumed, its value scored, life regained.
    let brain = reference_brain();
    let mut rng = Rng64::new(5);
    let worm = Worm { x: 0, y: 0, life: 500_000, food_consumed: 0 };
    let foods = vec![Food { x: 2_000_000, y: 0, value: 3_000_000 }];
    let (stepped, kept) = sim_step(&brain, &worm, &foods, &mut rng);
    assert_eq!(stepped.x, 2_000_000);
    assert_eq!(kept.len(), 0);
    assert_eq!(stepped.food_consumed, 3_000_000);
    // Life: 0.5 + 0.1 bonus, then 0.002 drained.
    assert_eq!(stepped.life, 598_000);
}

#[test]
fn step_caps_life_at_one() {
    let brain = reference_brain();
    let mut rng = Rng64::new(5);
    let worm = Worm { x: 0, y: 0, life: 1_000_000, food_consumed: 0 };
    let foods = vec![Food { x: 2_000_000, y: 0, value: 3_000_000 }];
    let (stepped, _) = sim_step(&brain, &worm, &foods, &mut rng);
    // The 0.1 bonus cannot push life past 1.0; only the drain shows.
    assert_eq!(stepped.life, 998_000);
}

#[test]
fn dead_agent_stays_put() {
    let brain = reference_brain();
    let mut rng = Rng64::new(77);
    let worm = Worm { x: 40_000_000, y: 9_000_000, life: 0, food_consumed: 2_000_000 };
    let foods = vec![Food { x: 40_000_000, y: 9_000_000, value: 1_000_000 }];
    let (stepped, kept) = sim_step(&brain, &worm, &foods, &mut rng);
    assert_eq!(stepped, worm);
    assert_eq!(kept.len(), 1);
    assert_eq!(rng.state, 77);
}

#[test]
fn evaluation_is_deterministic() {
    // A fixed brain, layout and seed replay the same run exactly: same
    // final agent, same fitness, same random state.
    let brain = Brain { food_attraction: 700_000, speed_factor: 2_200_000, life_threshold: 300_000 };
    let foods = vec![
        Food { x: 4_000_000, y: 1_000_000, value: 5_000_000 },
        Food { x: 30_000_000, y: 22_000_000, value: 7_000_000 },
        Food { x: 80_000_000, y: 64_000_000, value: 2_000_000 },
    ];
    let mut rng1 = Rng64::new(2024);
    let mut rng2 = Rng64::new(2024);
    let w1 = evaluate(&brain, &foods, &mut rng1);
    let w2 = evaluate(&brain, &foods, &mut rng2);
    assert_eq!(w1, w2);
    assert_eq!(rng1.state, rng2.state);
}

#[test]
fn evaluation_collects_close_food() {
    // All the food sits right on the agent's straight path: everything is
    // consumed, so the fitness reaches the layout's upper bound.
    let brain = reference_brain();
    let foods = vec![
        Food { x: 2_000_000, y: 0, value: 2_000_000 },
        Food { x: 4_000_000, y: 0, value: 3_000_000 },
    ];
    let mut rng = Rng64::new(1);
    let fit = fitness_of(&brain, &foods, &mut rng);
    assert_eq!(fit, 5_000_000);
}

#[test]
fn fitness_between_bounds() {
    let brain = Brain { food_attraction: 400_000, speed_factor: 2_900_000, life_threshold: 800_000 };
    let foods = vec![
        Food { x: 10_000_000, y: 90_000_000, value: 6_000_000 },
        Food { x: 55_000_000, y: 12_000_000, value: 9_000_000 },
        Food { x: 99_000_000, y: 99_000_000, value: 4_000_000 },
    ];
    let top = highest_possible_fitness(&foods);
    assert_eq!(top, 19_000_000);
    let floor = lowest_possible_fitness();
    assert_eq!(floor, 0);
    let mut rng = Rng64::new(555);
    let fit = fitness_of(&brain, &foods, &mut rng);
    assert!(floor <= fit && fit <= top);
}

#[test]
fn caller_food_list_is_untouched() {
    // The simulator works on a run-local copy: the canonical list survives.
    let brain = reference_brain();
    let foods = vec![Food { x: 2_000_000, y: 0, value: 3_000_000 }];
    let mut rng = Rng64::new(8);
    let _ = evaluate(&brain, &foods, &mut rng);
    assert_eq!(foods.len(), 1);
    assert_eq!(foods[0], Food { x: 2_000_000, y: 0, value: 3_000_000 });
}

#[test]
fn step_clamps_into_arena() {
    // Food due west at the arena edge: the agent would overshoot into
    // negative coordinates and is clamped to the wall — where it lands on
    // the food and consumes it.
    let brain = reference_brain();
    let mut rng = Rng64::new(2);
    let worm = Worm { x: 1_000_000, y: 0, life: 1_000_000, food_consumed: 0 };
    let foods = vec![Food { x: 0, y: 0, value: 5_000_000 }];
    let (stepped, kept) = sim_step(&brain, &worm, &foods, &mut rng);
    assert_eq!(stepped.x, 0);
    assert_eq!(stepped.y, 0);
    assert_eq!(kept.len(), 0);
    assert_eq!(stepped.food_consumed, 5_000_000);
}

#[test]
fn largest_food_value_is_accepted() {
    // A single food of the largest allowed value, right on the path.
    let brain = reference_brain();
    let foods = vec![Food { x: 2_000_000, y: 0, value: 1_000_000_000 }];
    let mut rng = Rng64::new(3);
    let fit = fitness_of(&brain, &foods, &mut rng);
    assert_eq!(fit, 1_000_000_000);
    assert_eq!(highest_possible_fitness(&foods), 1_000_000_000);
}
