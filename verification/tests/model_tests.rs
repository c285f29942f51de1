use wormsim::brain::Brain;
use wormsim::model::{encode_model, parse_model, Model};

fn model(fa: i64, sp: i64, lt: i64, fit: i64) -> Model {
    Model {
        brain: Brain { food_attraction: fa, speed_factor: sp, life_threshold: lt },
        fitness: fit,
    }
}

#[test]
fn encoding_is_the_expected_text() {
    let m = model(1_000_000, 2_000_000, 500_000, 12_000_000);
    let bytes = encode_model(&m);
    let text = String::from_utf8(bytes).unwrap();
    assert_eq!(
        text,
        "{\"brain\":{\"food_attraction\":1000000,\"speed_factor\":2000000,\"life_threshold\":500000},\"fitness\":12000000}"
    );
}

#[test]
fn round_trip_returns_the_original() {
    // Serialize, deserialize: the record comes back field for field.
    let cases = [
        model(1_000_000, 2_000_000, 500_000, 12_000_000),
        model(0, 1_000_000, 0, 0),
        model(1_000_000, 3_000_000, 1_000_000, 10_000_000_000_000),
        model(123_456, 2_345_678, 987_654, 42),
    ];
    for m in cases {
        let bytes = encode_model(&m);
        let back = parse_model(&bytes);
        assert_eq!(back, Some(m));
    }
}

#[test]
fn garbage_is_refused() {
    assert_eq!(parse_model(&Vec::new()), None);
    assert_eq!(parse_model(&b"not a model".to_vec()), None);
    assert_eq!(parse_model(&b"{}".to_vec()), None);
}

#[test]
fn truncated_record_is_refused() {
    let m = model(1_000_000, 2_000_000, 500_000, 7);
    let mut bytes = encode_model(&m);
    bytes.pop();
    assert_eq!(parse_model(&bytes), None);
}

#[test]
fn trailing_bytes_are_refused() {
    let m = model(1_000_000, 2_000_000, 500_000, 7);
    let mut bytes = encode_model(&m);
    bytes.push(b' ');
    assert_eq!(parse_model(&bytes), None);
}

#[test]
fn out_of_range_parameter_is_refused() {
    // food_attraction may not pass 1.0.
    let text = "{\"brain\":{\"food_attraction\":2000000,\"speed_factor\":2000000,\"life_threshold\":500000},\"fitness\":7}";
    assert_eq!(parse_model(&text.as_bytes().to_vec()), None);
    // speed_factor may not drop under 1.0.
    let slow = "{\"brain\":{\"food_attraction\":500000,\"speed_factor\":900000,\"life_threshold\":500000},\"fitness\":7}";
    assert_eq!(parse_model(&slow.as_bytes().to_vec()), None);
}

#[test]
fn leading_zeros_are_refused() {
    let text = "{\"brain\":{\"food_attraction\":0500000,\"speed_factor\":2000000,\"life_threshold\":500000},\"fitness\":7}";
    assert_eq!(parse_model(&text.as_bytes().to_vec()), None);
}

#[test]
fn canonical_text_parses() {
    let text = "{\"brain\":{\"food_attraction\":250000,\"speed_factor\":1500000,\"life_threshold\":0},\"fitness\":0}";
    let m = parse_model(&text.as_bytes().to_vec()).unwrap();
    assert_eq!(m, model(250_000, 1_500_000, 0, 0));
}

#[test]
fn encoding_is_plain_json() {
    // The record file stays readable by an ordinary JSON reader.
    let m = model(750_000, 2_250_000, 300_000, 9_000_000);
    let bytes = encode_model(&m);
    let v: serde_json::Value = serde_json::from_slice(&bytes).unwrap();
    assert_eq!(v["brain"]["food_attraction"], 750_000);
    assert_eq!(v["brain"]["speed_factor"], 2_250_000);
    assert_eq!(v["brain"]["life_threshold"], 300_000);
    assert_eq!(v["fitness"], 9_000_000);
}
