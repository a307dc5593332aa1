//! The classifier: from a recognized text to one command.
//!
//! The text is normalized, then held against groups of keywords in a fixed
//! order of priority; the first group that matches decides.

use vstd::prelude::*;
use crate::commands::{App, Command, CommandView, SystemToggles};
use crate::commands::matching::{
    begins_with, contains, find, has_any, matches_any, starts_with, views,
    DEFAULT_THRESHOLD_BITS,
};
use crate::commands::vocabulary::{
    BLUETOOTH_WORDS, BRIGHTNESS_WORDS, COMPUTER_WORDS, DISABLE_WORDS, DOLPHIN_WORDS,
    DOWN_WORDS, DO_NOT_DISTURB_WORDS, ENABLE_WORDS, END_WORDS, FIREFOX_WORDS, MAXIMUM_WORDS,
    MINIMUM_WORDS, NEXT_WORDS, NIGHT_LIGHT_WORDS, OBSIDIAN_WORDS, OPEN_WORDS, PAUSE_WORDS,
    POWEROFF_WORDS, PREVIOUS_WORDS, QUIT_PHRASES, REBOOT_WORDS, SCREENSHOT_WORDS,
    SEARCH_PREFIXES, SLEEP_WORDS, STEAM_WORDS, TELEGRAM_WORDS, TERMINAL_WORDS, UP_WORDS,
    VOLUME_WORDS, WIFI_WORDS,
};
use crate::normalizer::text::{normalize_chars, normalized, tail_text, to_chars, to_text};

verus! {

/// Whether one of `words` matches `text`, literally or closely.
pub open spec fn says(text: Seq<char>, words: Seq<&str>, threshold: u64) -> bool {
    matches_any(text, views(words), threshold)
}

/// Whether one of the quit phrases stands in the text. Only the phrase
/// itself counts here, not a word that resembles it.
pub open spec fn asks_to_quit(text: Seq<char>) -> bool {
    exists|k: int| 0 <= k < QUIT_PHRASES@.len() && contains(text, #[trigger] QUIT_PHRASES@[k]@)
}

/// The power action that a text asks for: it has to name the computer and
/// the action.
pub open spec fn power_command(text: Seq<char>, threshold: u64) -> Option<CommandView> {
    if !says(text, COMPUTER_WORDS@, threshold) {
        None
    } else if says(text, POWEROFF_WORDS@, threshold) {
        Some(CommandView::Poweroff)
    } else if says(text, REBOOT_WORDS@, threshold) {
        Some(CommandView::Reboot)
    } else if says(text, SLEEP_WORDS@, threshold) {
        Some(CommandView::Sleep)
    } else {
        None
    }
}

/// The query of a search that begins with the verb at `from` in the list of
/// search verbs, or with a later one: all that follows the verb, unchanged.
/// Only the one verb at the start is taken away; a verb that is said again
/// belongs to the query.
pub open spec fn search_query(text: Seq<char>, from: int) -> Option<Seq<char>>
    decreases SEARCH_PREFIXES@.len() - from,
{
    if from < 0 || from >= SEARCH_PREFIXES@.len() {
        None
    } else if starts_with(text, SEARCH_PREFIXES@[from]@) {
        Some(text.skip(SEARCH_PREFIXES@[from]@.len() as int))
    } else {
        search_query(text, from + 1)
    }
}

/// The search that a text asks for.
pub open spec fn search_command(text: Seq<char>) -> Option<CommandView> {
    match search_query(text, 0) {
        Some(query) => Some(CommandView::FindInInternet(query)),
        None => None,
    }
}

/// The change of volume or brightness that a text asks for: a direction and
/// what to change.
pub open spec fn level_command(text: Seq<char>, threshold: u64) -> Option<CommandView> {
    let volume = says(text, VOLUME_WORDS@, threshold);
    let brightness = says(text, BRIGHTNESS_WORDS@, threshold);
    let maximum = says(text, MAXIMUM_WORDS@, threshold);
    let up = says(text, UP_WORDS@, threshold);
    let down = says(text, DOWN_WORDS@, threshold);
    if says(text, MINIMUM_WORDS@, threshold) && brightness {
        Some(CommandView::BrightnessMin)
    } else if maximum && volume {
        Some(CommandView::VolumeMax)
    } else if maximum && brightness {
        Some(CommandView::BrightnessMax)
    } else if up && volume {
        Some(CommandView::VolumeUp)
    } else if up && brightness {
        Some(CommandView::BrightnessUp)
    } else if down && volume {
        Some(CommandView::VolumeDown)
    } else if down && brightness {
        Some(CommandView::BrightnessDown)
    } else {
        None
    }
}

/// The application that a text names.
pub open spec fn named_app(text: Seq<char>, threshold: u64) -> Option<App> {
    if says(text, FIREFOX_WORDS@, threshold) {
        Some(App::Firefox)
    } else if says(text, TERMINAL_WORDS@, threshold) {
        Some(App::Terminal)
    } else if says(text, OBSIDIAN_WORDS@, threshold) {
        Some(App::Obsidian)
    } else if says(text, STEAM_WORDS@, threshold) {
        Some(App::Steam)
    } else if says(text, DOLPHIN_WORDS@, threshold) {
        Some(App::Dolphin)
    } else if says(text, TELEGRAM_WORDS@, threshold) {
        Some(App::Telegram)
    } else {
        None
    }
}

/// The application that a text asks to open.
pub open spec fn open_command(text: Seq<char>, threshold: u64) -> Option<CommandView> {
    if !says(text, OPEN_WORDS@, threshold) {
        None
    } else {
        match named_app(text, threshold) {
            Some(app) => Some(CommandView::OpenApp(app)),
            None => None,
        }
    }
}

/// The step in the playlist that a text asks for.
pub open spec fn transport_command(text: Seq<char>, threshold: u64) -> Option<CommandView> {
    if says(text, NEXT_WORDS@, threshold) {
        Some(CommandView::AudioNext)
    } else if says(text, PREVIOUS_WORDS@, threshold) {
        Some(CommandView::AudioPrevious)
    } else {
        None
    }
}

/// The switch that a text names.
pub open spec fn named_toggle(text: Seq<char>, threshold: u64) -> Option<SystemToggles> {
    if says(text, WIFI_WORDS@, threshold) {
        Some(SystemToggles::Wifi)
    } else if says(text, BLUETOOTH_WORDS@, threshold) {
        Some(SystemToggles::Bluetooth)
    } else if says(text, NIGHT_LIGHT_WORDS@, threshold) {
        Some(SystemToggles::NightLight)
    } else if says(text, DO_NOT_DISTURB_WORDS@, threshold) {
        Some(SystemToggles::DoNotDisturb)
    } else if says(text, VOLUME_WORDS@, threshold) {
        Some(SystemToggles::Volume)
    } else {
        None
    }
}

/// The switch that a text asks to flip: switching on and switching off both
/// flip it.
pub open spec fn toggle_command(text: Seq<char>, threshold: u64) -> Option<CommandView> {
    if says(text, ENABLE_WORDS@, threshold) || says(text, DISABLE_WORDS@, threshold) {
        match named_toggle(text, threshold) {
            Some(toggle) => Some(CommandView::SystemToggle(toggle)),
            None => None,
        }
    } else {
        None
    }
}

/// The first of two findings.
pub open spec fn or_else(first: Option<CommandView>, second: Option<CommandView>) -> Option<
    CommandView,
> {
    if first is Some {
        first
    } else {
        second
    }
}

/// The command in a normalized text. The groups are tried in this order, and
/// the first that finds a command decides: quit, end of conversation,
/// screenshot, power, search, levels, applications, playlist, switches,
/// pause. Where none does, the text is kept as unknown.
///
/// A quit phrase counts wherever it stands in the text. Every other group
/// but the search goes by keywords that match as a substring or closely
/// enough by one word.
pub open spec fn classified(text: Seq<char>, threshold: u64) -> CommandView {
    if asks_to_quit(text) {
        CommandView::Quit
    } else if says(text, END_WORDS@, threshold) {
        CommandView::EndConversation
    } else if says(text, SCREENSHOT_WORDS@, threshold) {
        CommandView::Screenshot
    } else {
        let found = or_else(
            power_command(text, threshold),
            or_else(
                search_command(text),
                or_else(
                    level_command(text, threshold),
                    or_else(
                        open_command(text, threshold),
                        or_else(
                            transport_command(text, threshold),
                            toggle_command(text, threshold),
                        ),
                    ),
                ),
            ),
        );
        match found {
            Some(command) => command,
            None => if says(text, PAUSE_WORDS@, threshold) {
                CommandView::AudioPause
            } else {
                CommandView::Unknown(text)
            },
        }
    }
}

/// The view of a command that may be missing.
pub open spec fn view_of(found: Option<Command>) -> Option<CommandView> {
    match found {
        Some(command) => Some(command@),
        None => None,
    }
}

/// Tests whether one of the quit phrases stands in the text.
pub fn is_quit(text: &[char]) -> (yes: bool)
    ensures
        yes == asks_to_quit(text@),
{
    let mut k: usize = 0;
    while k < QUIT_PHRASES.len()
        invariant
            k <= QUIT_PHRASES@.len(),
            forall|j: int| 0 <= j < k ==> !contains(text@, #[trigger] QUIT_PHRASES@[j]@),
        decreases QUIT_PHRASES@.len() - k,
    {
        let phrase = to_chars(QUIT_PHRASES[k]);
        if find(text, phrase.as_slice()) {
            return true;
        }
        k += 1;
    }
    false
}

/// Looks for a power action.
pub fn find_power(text: &[char], threshold: u64) -> (found: Option<Command>)
    ensures
        view_of(found) == power_command(text@, threshold),
{
    if !has_any(text, &COMPUTER_WORDS, threshold) {
        None
    } else if has_any(text, &POWEROFF_WORDS, threshold) {
        Some(Command::Poweroff)
    } else if has_any(text, &REBOOT_WORDS, threshold) {
        Some(Command::Reboot)
    } else if has_any(text, &SLEEP_WORDS, threshold) {
        Some(Command::Sleep)
    } else {
        None
    }
}

/// Looks for a search verb at the start and takes what follows as the query.
pub fn find_search(text: &[char]) -> (found: Option<Command>)
    ensures
        view_of(found) == search_command(text@),
{
    let mut k: usize = 0;
    while k < SEARCH_PREFIXES.len()
        invariant
            k <= SEARCH_PREFIXES@.len(),
            search_query(text@, 0) == search_query(text@, k as int),
        decreases SEARCH_PREFIXES@.len() - k,
    {
        let prefix = to_chars(SEARCH_PREFIXES[k]);
        if begins_with(text, prefix.as_slice()) {
            let query = tail_text(text, prefix.len());
            return Some(Command::FindInInternet(query));
        }
        k += 1;
    }
    None
}

/// Looks for a change of volume or brightness.
pub fn find_level(text: &[char], threshold: u64) -> (found: Option<Command>)
    ensures
        view_of(found) == level_command(text@, threshold),
{
    if has_any(text, &MINIMUM_WORDS, threshold) && has_any(text, &BRIGHTNESS_WORDS, threshold) {
        return Some(Command::BrightnessMin);
    }
    if has_any(text, &MAXIMUM_WORDS, threshold) {
        if has_any(text, &VOLUME_WORDS, threshold) {
            return Some(Command::VolumeMax);
        }
        if has_any(text, &BRIGHTNESS_WORDS, threshold) {
            return Some(Command::BrightnessMax);
        }
    }
    if has_any(text, &UP_WORDS, threshold) {
        if has_any(text, &VOLUME_WORDS, threshold) {
            return Some(Command::VolumeUp);
        }
        if has_any(text, &BRIGHTNESS_WORDS, threshold) {
            return Some(Command::BrightnessUp);
        }
    }
    if has_any(text, &DOWN_WORDS, threshold) {
        if has_any(text, &VOLUME_WORDS, threshold) {
            return Some(Command::VolumeDown);
        }
        if has_any(text, &BRIGHTNESS_WORDS, threshold) {
            return Some(Command::BrightnessDown);
        }
    }
    None
}

/// Looks for the name of an application.
pub fn find_app(text: &[char], threshold: u64) -> (found: Option<App>)
    ensures
        found == named_app(text@, threshold),
{
    if has_any(text, &FIREFOX_WORDS, threshold) {
        Some(App::Firefox)
    } else if has_any(text, &TERMINAL_WORDS, threshold) {
        Some(App::Terminal)
    } else if has_any(text, &OBSIDIAN_WORDS, threshold) {
        Some(App::Obsidian)
    } else if has_any(text, &STEAM_WORDS, threshold) {
        Some(App::Steam)
    } else if has_any(text, &DOLPHIN_WORDS, threshold) {
        Some(App::Dolphin)
    } else if has_any(text, &TELEGRAM_WORDS, threshold) {
        Some(App::Telegram)
    } else {
        None
    }
}

/// Looks for a request to open an application.
pub fn find_open(text: &[char], threshold: u64) -> (found: Option<Command>)
    ensures
        view_of(found) == open_command(text@, threshold),
{
    if !has_any(text, &OPEN_WORDS, threshold) {
        return None;
    }
    match find_app(text, threshold) {
        Some(app) => Some(Command::OpenApp(app)),
        None => None,
    }
}

/// Looks for a step in the playlist.
pub fn find_transport(text: &[char], threshold: u64) -> (found: Option<Command>)
    ensures
        view_of(found) == transport_command(text@, threshold),
{
    if has_any(text, &NEXT_WORDS, threshold) {
        Some(Command::AudioNext)
    } else if has_any(text, &PREVIOUS_WORDS, threshold) {
        Some(Command::AudioPrevious)
    } else {
        None
    }
}

/// Looks for the name of a switch.
pub fn find_switch(text: &[char], threshold: u64) -> (found: Option<SystemToggles>)
    ensures
        found == named_toggle(text@, threshold),
{
    if has_any(text, &WIFI_WORDS, threshold) {
        Some(SystemToggles::Wifi)
    } else if has_any(text, &BLUETOOTH_WORDS, threshold) {
        Some(SystemToggles::Bluetooth)
    } else if has_any(text, &NIGHT_LIGHT_WORDS, threshold) {
        Some(SystemToggles::NightLight)
    } else if has_any(text, &DO_NOT_DISTURB_WORDS, threshold) {
        Some(SystemToggles::DoNotDisturb)
    } else if has_any(text, &VOLUME_WORDS, threshold) {
        Some(SystemToggles::Volume)
    } else {
        None
    }
}

/// Looks for a request to flip a switch.
pub fn find_toggle(text: &[char], threshold: u64) -> (found: Option<Command>)
    ensures
        view_of(found) == toggle_command(text@, threshold),
{
    if has_any(text, &ENABLE_WORDS, threshold) || has_any(text, &DISABLE_WORDS, threshold) {
        match find_switch(text, threshold) {
            Some(toggle) => Some(Command::SystemToggle(toggle)),
            None => None,
        }
    } else {
        None
    }
}

/// Finds the command in a normalized text; `threshold` holds the bits of the
/// double that a similarity score has to reach. Never fails: a text without
/// a command comes back as `Unknown` with the text in it.
pub fn classify(text: &[char], threshold: u64) -> (command: Command)
    ensures
        command@ == classified(text@, threshold),
{
    if is_quit(text) {
        return Command::Quit;
    }
    if has_any(text, &END_WORDS, threshold) {
        return Command::EndConversation;
    }
    if has_any(text, &SCREENSHOT_WORDS, threshold) {
        return Command::Screenshot;
    }
    if let Some(command) = find_power(text, threshold) {
        return command;
    }
    if let Some(command) = find_search(text) {
        return command;
    }
    if let Some(command) = find_level(text, threshold) {
        return command;
    }
    if let Some(command) = find_open(text, threshold) {
        return command;
    }
    if let Some(command) = find_transport(text, threshold) {
        return command;
    }
    if let Some(command) = find_toggle(text, threshold) {
        return command;
    }
    if has_any(text, &PAUSE_WORDS, threshold) {
        return Command::AudioPause;
    }
    Command::Unknown(to_text(text))
}

/// Finds the command in a recognized text, with a similarity threshold of
/// the caller's choice, given as the bits of a double.
pub fn parse_command_with(raw: &str, threshold: u64) -> (command: Command)
    ensures
        command@ == classified(normalized(raw@), threshold),
{
    let text = normalize_chars(raw);
    classify(text.as_slice(), threshold)
}

/// Finds the command in a recognized text, with the default similarity
/// threshold of 0.85.
pub fn parse_command(raw: &str) -> (command: Command)
    ensures
        command@ == classified(normalized(raw@), DEFAULT_THRESHOLD_BITS),
{
    parse_command_with(raw, DEFAULT_THRESHOLD_BITS)
}

/// A quit phrase comes before everything else: a text in which one stands
/// is a request to quit, whatever other keywords it holds and however low
/// the threshold for similar words is set.
pub proof fn lemma_quit_comes_first(text: Seq<char>, threshold: u64)
    requires
        asks_to_quit(text),
    ensures
        classified(text, threshold) == CommandView::Quit,
{
}

/// A text in which no command is found comes back whole.
pub proof fn lemma_unknown_keeps_text(text: Seq<char>, threshold: u64)
    ensures
        classified(text, threshold) is Unknown ==> classified(text, threshold)
            == CommandView::Unknown(text),
{
}

/// What follows a search verb is the query as it stands: nothing is taken
/// from it, not a second verb either, and no keyword in it is looked at.
/// Only a quit phrase, a word that ends the conversation, a word for a
/// screenshot or a power action come before the search.
pub proof fn lemma_search_keeps_query(text: Seq<char>, threshold: u64, verb: int)
    requires
        0 <= verb < SEARCH_PREFIXES@.len(),
        starts_with(text, SEARCH_PREFIXES@[verb]@),
        forall|earlier: int| 0 <= earlier < verb ==> !starts_with(text, #[trigger] SEARCH_PREFIXES@[earlier]@),
        !asks_to_quit(text),
        !says(text, END_WORDS@, threshold),
        !says(text, SCREENSHOT_WORDS@, threshold),
        power_command(text, threshold) is None,
    ensures
        classified(text, threshold) == CommandView::FindInInternet(
            text.skip(SEARCH_PREFIXES@[verb]@.len() as int),
        ),
        SEARCH_PREFIXES@[verb]@ + text.skip(SEARCH_PREFIXES@[verb]@.len() as int) == text,
{
    lemma_search_finds_verb(text, 0, verb);
    let prefix = SEARCH_PREFIXES@[verb]@;
    assert(prefix + text.skip(prefix.len() as int) =~= text) by {
        assert(text.subrange(0, prefix.len() as int) == prefix);
    }
}

/// The query of a text is what follows the first search verb with which the
/// text begins.
pub proof fn lemma_search_finds_verb(text: Seq<char>, from: int, verb: int)
    requires
        0 <= from <= verb < SEARCH_PREFIXES@.len(),
        starts_with(text, SEARCH_PREFIXES@[verb]@),
        forall|earlier: int|
            from <= earlier < verb ==> !starts_with(text, #[trigger] SEARCH_PREFIXES@[earlier]@),
    ensures
        search_query(text, from) == Some(text.skip(SEARCH_PREFIXES@[verb]@.len() as int)),
    decreases verb - from,
{
    if from < verb {
        lemma_search_finds_verb(text, from + 1, verb);
    }
}

} // verus!
