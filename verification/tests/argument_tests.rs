use ascii_image::argument_parser::{ArgumentError, ArgumentParser, ImagePathError, parse_u16};
use ascii_image::image_converter::ScalingType;

fn args(tokens: &[&str]) -> Vec<String> {
    tokens.iter().map(|t| t.to_string()).collect()
}

const TERM: Option<(u16, u16)> = Some((80, 24));

#[test]
fn image_path_is_required() {
    let result = ArgumentParser::new(&args(&["prog", "--colored"]), TERM);
    assert_eq!(result.unwrap_err(), ArgumentError::MissingImagePath);
}

#[test]
fn image_path_error_message() {
    let text = ImagePathError::write();
    assert_eq!(
        text,
        "No image path was supplied, please provide a path to an image with either:\n -i {image_path} or --image {image_path}"
    );
}

#[test]
fn defaults_from_terminal() {
    let parsed = ArgumentParser::new(&args(&["prog", "-i", "some.png"]), TERM).unwrap();
    assert_eq!(parsed.image_path, "some.png");
    assert_eq!(parsed.width, 80);
    assert_eq!(parsed.height, 24);
    assert!(!parsed.colored);
    assert_eq!(parsed.scaling_type, ScalingType::PreserveRatio);
    let palette: String = parsed.character_palette.iter().collect();
    assert_eq!(palette, " .:-=+*#%@");
}

#[test]
fn width_and_height_override_terminal() {
    let parsed =
        ArgumentParser::new(&args(&["prog", "-i", "a.png", "-w", "10", "-h", "5"]), TERM).unwrap();
    assert_eq!(parsed.width, 10);
    assert_eq!(parsed.height, 5);
    let long = ArgumentParser::new(
        &args(&["prog", "--width", "300", "--height", "200", "--image", "a.png"]),
        TERM,
    )
    .unwrap();
    assert_eq!(long.width, 300);
    assert_eq!(long.height, 200);
}

#[test]
fn invalid_numeric_argument_is_rejected() {
    let result = ArgumentParser::new(&args(&["prog", "-i", "a.png", "-w", "abc"]), TERM);
    assert_eq!(result.unwrap_err(), ArgumentError::InvalidNumericArgument);
    let result = ArgumentParser::new(&args(&["prog", "-h", "65536", "-i", "a.png"]), TERM);
    assert_eq!(result.unwrap_err(), ArgumentError::InvalidNumericArgument);
}

#[test]
fn mono_overrides_earlier_colored() {
    let parsed =
        ArgumentParser::new(&args(&["prog", "--colored", "--mono", "-i", "a.png"]), TERM).unwrap();
    assert!(!parsed.colored);
    let parsed =
        ArgumentParser::new(&args(&["prog", "--mono", "-c", "-i", "a.png"]), TERM).unwrap();
    assert!(parsed.colored);
}

#[test]
fn scaling_flags_select_policy() {
    let parsed = ArgumentParser::new(&args(&["prog", "-i", "a.png", "--stretch"]), TERM).unwrap();
    assert_eq!(parsed.scaling_type, ScalingType::Stretch);
    let parsed = ArgumentParser::new(
        &args(&["prog", "-i", "a.png", "--stretch", "--preserve"]),
        TERM,
    )
    .unwrap();
    assert_eq!(parsed.scaling_type, ScalingType::PreserveRatio);
}

#[test]
fn character_palette_option_replaces_default() {
    let parsed = ArgumentParser::new(
        &args(&["prog", "--character-palette", "ab", "-i", "a.png"]),
        TERM,
    )
    .unwrap();
    assert_eq!(parsed.character_palette, vec!['a', 'b']);
}

#[test]
fn unknown_tokens_are_ignored() {
    let parsed =
        ArgumentParser::new(&args(&["prog", "junk", "-i", "a.png", "--what"]), TERM).unwrap();
    assert_eq!(parsed.image_path, "a.png");
}

#[test]
fn value_may_also_act_as_flag() {
    // "--mono" follows "-i": it becomes the image path and clears the mode.
    let parsed =
        ArgumentParser::new(&args(&["prog", "--colored", "-i", "--mono"]), TERM).unwrap();
    assert_eq!(parsed.image_path, "--mono");
    assert!(!parsed.colored);
}

#[test]
fn terminal_size_unavailable_without_override() {
    let result = ArgumentParser::new(&args(&["prog", "-i", "a.png"]), None);
    assert_eq!(result.unwrap_err(), ArgumentError::TerminalSizeUnavailable);
    let result = ArgumentParser::new(&args(&["prog", "-i", "a.png", "-w", "10"]), None);
    assert_eq!(result.unwrap_err(), ArgumentError::TerminalSizeUnavailable);
    let parsed =
        ArgumentParser::new(&args(&["prog", "-i", "a.png", "-w", "10", "-h", "4"]), None).unwrap();
    assert_eq!((parsed.width, parsed.height), (10, 4));
}

#[test]
fn parse_u16_accepts_plain_and_signed_numerals() {
    assert_eq!(parse_u16(&"0".to_string()), Some(0));
    assert_eq!(parse_u16(&"65535".to_string()), Some(65535));
    assert_eq!(parse_u16(&"+12".to_string()), Some(12));
    assert_eq!(parse_u16(&"007".to_string()), Some(7));
}

#[test]
fn parse_u16_rejects_bad_numerals() {
    assert_eq!(parse_u16(&"".to_string()), None);
    assert_eq!(parse_u16(&"+".to_string()), None);
    assert_eq!(parse_u16(&"65536".to_string()), None);
    assert_eq!(parse_u16(&"999999999999".to_string()), None);
    assert_eq!(parse_u16(&"12a".to_string()), None);
    assert_eq!(parse_u16(&"-3".to_string()), None);
    assert_eq!(parse_u16(&"1 2".to_string()), None);
}
