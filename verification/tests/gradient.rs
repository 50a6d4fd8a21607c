use vividry::generate_gradient;
use vividry::Color;
use vividry::GradientError;

#[test]
fn black_to_white_three_samples() {
    let colors = vec![
        Color::from_hex("#000000").unwrap(),
        Color::from_hex("#ffffff").unwrap(),
    ];
    let out = generate_gradient(&colors, 3).unwrap();
    assert_eq!(out.len(), 3);
    assert_eq!(out[0].to_hex(), "000000");
    // the midpoint 127.5 rounds half up to 128
    assert_eq!(out[1].to_hex(), "808080");
    assert_eq!(out[2].to_hex(), "ffffff");
}

#[test]
fn evenly_spaced_exact_samples() {
    let colors = vec![
        Color::from_hex("#000000").unwrap(),
        Color::from_hex("#000004").unwrap(),
    ];
    let out = generate_gradient(&colors, 5).unwrap();
    let hexes: Vec<String> = out.iter().map(|c| c.to_hex()).collect();
    assert_eq!(hexes, ["000000", "000001", "000002", "000003", "000004"]);
}

#[test]
fn endpoints_equal_inputs_after_rgb_round_trip() {
    let colors = vec![
        Color::from_hex("#ff5733").unwrap(),
        Color::from_hex("#123456").unwrap(),
        Color::from_hex("#00ff00").unwrap(),
    ];
    let out = generate_gradient(&colors, 7).unwrap();
    assert_eq!(out.len(), 7);
    assert_eq!(out[0].to_hex(), colors[0].to_hex());
    assert_eq!(out[6].to_hex(), colors[2].to_hex());
}

#[test]
fn single_color_gives_copies() {
    let c = Color::from_hex("#123456").unwrap();
    let out = generate_gradient(&vec![c], 5).unwrap();
    assert_eq!(out.len(), 5);
    for s in &out {
        assert_eq!(s.to_hex(), "123456");
    }
}

#[test]
fn empty_input_is_an_error() {
    let out = generate_gradient(&vec![], 5);
    assert!(matches!(out, Err(GradientError::EmptyColors)));
}

#[test]
fn fewer_than_two_samples_is_an_error() {
    let c = Color::from_hex("#123456").unwrap();
    assert!(matches!(generate_gradient(&vec![c], 1), Err(GradientError::TooFewSamples)));
    assert!(matches!(generate_gradient(&vec![c], 0), Err(GradientError::TooFewSamples)));
}

#[test]
fn pass_through_inputs_survive() {
    // every input color sits at an integer bias position of this gradient
    let colors = vec![
        Color::from_hex("#ff0000").unwrap(),
        Color::from_hex("#00ff00").unwrap(),
        Color::from_hex("#0000ff").unwrap(),
    ];
    let out = generate_gradient(&colors, 3).unwrap();
    assert_eq!(out[0].to_hex(), "ff0000");
    assert_eq!(out[1].to_hex(), "00ff00");
    assert_eq!(out[2].to_hex(), "0000ff");
}
