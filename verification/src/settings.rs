//! What the assistant is set up with: the language, the size of the speech
//! model, and the values that follow from them.

use vstd::prelude::*;
use crate::normalizer::text::{append_text, same_text};

verus! {

/// The sample rate that the recognizer takes, in samples per second.
pub const TARGET_SR: u32 = 16_000;

/// The time that the user has for a command after the wake word, in
/// milliseconds.
pub const COMMAND_WINDOW_MS: u64 = 6_000;

/// The languages that the assistant understands.
#[derive(Debug, Clone, Copy, PartialEq, Eq, Structural)]
pub enum Languages {
    English,
    Ukrainian,
}

/// The sizes in which a speech model comes.
#[derive(Debug, Clone, Copy, PartialEq, Eq, Structural)]
pub enum Models {
    Nano,
    Small,
    Normal,
}

/// The language that a setting names.
pub open spec fn language_named(setting: Seq<char>) -> Option<Languages> {
    if setting == "uk"@ {
        Some(Languages::Ukrainian)
    } else if setting == "en"@ {
        Some(Languages::English)
    } else {
        None
    }
}

/// The model that a setting names.
pub open spec fn model_named(setting: Seq<char>) -> Option<Models> {
    if setting == "nano"@ {
        Some(Models::Nano)
    } else if setting == "small"@ {
        Some(Models::Small)
    } else if setting == "normal"@ {
        Some(Models::Normal)
    } else {
        None
    }
}

/// The name of a language in the path of its models.
pub open spec fn language_code(language: Languages) -> Seq<char> {
    match language {
        Languages::English => "en"@,
        Languages::Ukrainian => "uk"@,
    }
}

/// The name of a model's size in its path.
pub open spec fn model_code(model: Models) -> Seq<char> {
    match model {
        Models::Nano => "nano"@,
        Models::Small => "small"@,
        Models::Normal => "normal"@,
    }
}

/// The wake word in a language.
pub open spec fn wake_word_in(language: Languages) -> Seq<char> {
    match language {
        Languages::English => "aurora"@,
        Languages::Ukrainian => "аврора"@,
    }
}

/// Reads the language out of its setting: `uk` or `en`. `None` for any
/// other text; the caller then falls back to English.
pub fn parse_language(setting: &str) -> (language: Option<Languages>)
    ensures
        language == language_named(setting@),
{
    if same_text(setting, "uk") {
        Some(Languages::Ukrainian)
    } else if same_text(setting, "en") {
        Some(Languages::English)
    } else {
        None
    }
}

/// Reads the size of the model out of its setting: `nano`, `small` or
/// `normal`. `None` for any other text; the caller then falls back to the
/// normal model.
pub fn parse_model(setting: &str) -> (model: Option<Models>)
    ensures
        model == model_named(setting@),
{
    if same_text(setting, "nano") {
        Some(Models::Nano)
    } else if same_text(setting, "small") {
        Some(Models::Small)
    } else if same_text(setting, "normal") {
        Some(Models::Normal)
    } else {
        None
    }
}

/// Tells whether a setting switches something on: only the text `true`
/// does.
pub fn is_enabled(setting: &str) -> (yes: bool)
    ensures
        yes == (setting@ == "true"@),
{
    same_text(setting, "true")
}

/// The directory of the speech model for a language and a size.
pub fn model_path(language: Languages, model: Models) -> (path: String)
    ensures
        path@ == "models/stt/"@ + language_code(language) + "-"@ + model_code(model),
{
    let mut path = String::new();
    append_text(&mut path, "models/stt/");
    append_text(
        &mut path,
        match language {
            Languages::English => "en",
            Languages::Ukrainian => "uk",
        },
    );
    append_text(&mut path, "-");
    append_text(
        &mut path,
        match model {
            Models::Nano => "nano",
            Models::Small => "small",
            Models::Normal => "normal",
        },
    );
    proof {
        assert(path@ =~= "models/stt/"@ + language_code(language) + "-"@ + model_code(model));
    }
    path
}

/// The wake word in a language.
pub fn wake_word(language: Languages) -> (word: &'static str)
    ensures
        word@ == wake_word_in(language),
{
    match language {
        Languages::English => "aurora",
        Languages::Ukrainian => "аврора",
    }
}

} // verus!
