use aurora::settings::{
    is_enabled, model_path, parse_language, parse_model, wake_word, Languages, Models,
    COMMAND_WINDOW_MS, TARGET_SR,
};

#[test]
fn settings_name_a_language() {
    assert_eq!(parse_language("uk"), Some(Languages::Ukrainian));
    assert_eq!(parse_language("en"), Some(Languages::English));
    assert_eq!(parse_language("EN"), None);
    assert_eq!(parse_language(""), None);
    assert_eq!(parse_language("english"), None);
}

#[test]
fn settings_name_a_model() {
    assert_eq!(parse_model("nano"), Some(Models::Nano));
    assert_eq!(parse_model("small"), Some(Models::Small));
    assert_eq!(parse_model("normal"), Some(Models::Normal));
    assert_eq!(parse_model("large"), None);
    assert_eq!(parse_model(""), None);
}

#[test]
fn only_true_switches_on() {
    assert!(is_enabled("true"));
    assert!(!is_enabled("false"));
    assert!(!is_enabled("True"));
    assert!(!is_enabled(""));
    assert!(!is_enabled("true "));
}

#[test]
fn models_lie_under_their_language_and_size() {
    assert_eq!(model_path(Languages::English, Models::Nano), "models/stt/en-nano");
    assert_eq!(model_path(Languages::English, Models::Normal), "models/stt/en-normal");
    assert_eq!(model_path(Languages::Ukrainian, Models::Small), "models/stt/uk-small");
}

#[test]
fn each_language_has_its_wake_word() {
    assert_eq!(wake_word(Languages::English), "aurora");
    assert_eq!(wake_word(Languages::Ukrainian), "аврора");
}

#[test]
fn the_recognizer_takes_sixteen_kilohertz_and_the_window_is_six_seconds() {
    assert_eq!(TARGET_SR, 16_000);
    assert_eq!(COMMAND_WINDOW_MS, 6_000);
}
