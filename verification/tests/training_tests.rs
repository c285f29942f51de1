use wormsim::model::{encode_model, parse_model, Model};
use wormsim::rng::Rng64;
use wormsim::sim::evaluate;
use wormsim::trainer::Trainer;
use wormsim::world::{highest_possible_fitness, Food};

#[test]
fn train() {
    // A small training run over four foods; the winning brain and its
    // fitness become the persistable record.
    let foods = vec![
        Food { x: 37_000_000, y: 12_000_000, value: 6_000_000 },
        Food { x: 4_000_000, y: 88_000_000, value: 3_000_000 },
        Food { x: 61_000_000, y: 42_000_000, value: 9_000_000 },
        Food { x: 90_000_000, y: 7_000_000, value: 2_000_000 },
    ];
    let top = highest_possible_fitness(&foods);
    let mut trainer = Trainer::new(foods, 1000);
    trainer.run(3);
    assert!(trainer.best_fitness >= 0);
    assert!(trainer.best_fitness <= top);
    let model = trainer.best_model().expect("a scored generation yields a record");
    assert_eq!(model, Model { brain: trainer.best_brain, fitness: trainer.best_fitness });
    let saved = encode_model(&model);
    assert!(!saved.is_empty());
    assert_eq!(parse_model(&saved), Some(model));
    println!("Model saved successfully!");
}

#[test]
fn verify() {
    // Reload a persisted record and run its brain through a fresh foraging
    // simulation: the run ends in a sane state.
    let text = "{\"brain\":{\"food_attraction\":800000,\"speed_factor\":2000000,\"life_threshold\":400000},\"fitness\":5000000}";
    let model = match parse_model(&text.as_bytes().to_vec()) {
        Some(m) => m,
        None => panic!("Failed to verify model"),
    };
    let foods: Vec<Food> = (0..10)
        .map(|k: i64| Food {
            x: (k * 9_000_000 + 3_000_000) % 100_000_000,
            y: (k * 23_000_000 + 7_000_000) % 100_000_000,
            value: 2_000_000 + (k % 9) * 1_000_000,
        })
        .collect();
    let mut rng = Rng64::new(64);
    let worm = evaluate(&model.brain, &foods, &mut rng);
    assert!(0 <= worm.life && worm.life <= 1_000_000);
    assert!(0 <= worm.x && worm.x <= 100_000_000);
    assert!(0 <= worm.y && worm.y <= 100_000_000);
    assert!(worm.food_consumed <= highest_possible_fitness(&foods));
    println!("Model verified successfully!");
}
