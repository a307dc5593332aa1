//! The keywords that the classifier listens for, in Ukrainian and English.

use vstd::prelude::*;

verus! {

/// The phrases that end the program, wherever in a text one of them stands.
pub const QUIT_PHRASES: [&'static str; 7] = [
    "вихід",
    "вимкнись",
    "заверши роботу",
    "стоп",
    "stop",
    "exit",
    "quit",
];

/// Words that end the conversation.
pub const END_WORDS: [&'static str; 7] = [
    "досить",
    "все",
    "закінчимо",
    "that's all",
    "that's it",
    "nevermind",
    "bye",
];

/// Words for a picture of the screen.
pub const SCREENSHOT_WORDS: [&'static str; 5] = [
    "скріншот",
    "знімок екрана",
    "знімок екрану",
    "capture screen",
    "screenshot",
];

/// Names of the computer.
pub const COMPUTER_WORDS: [&'static str; 4] = ["пк", "комп'ютер", "pc", "computer"];

/// Words for switching the computer off.
pub const POWEROFF_WORDS: [&'static str; 3] = ["shutdown", "poweroff", "вимкни"];

/// Words for starting the computer again.
pub const REBOOT_WORDS: [&'static str; 3] = ["restart", "reboot", "перезапусти"];

/// Words for putting the computer to sleep.
pub const SLEEP_WORDS: [&'static str; 3] = ["suspend", "sleep", "сон"];

/// The verbs that open a search; each ends in a space.
pub const SEARCH_PREFIXES: [&'static str; 5] = ["знайди ", "пошук ", "шукай ", "find ", "search "];

/// Words for the lowest level.
pub const MINIMUM_WORDS: [&'static str; 2] = ["minimum", "мінімум"];

/// Words for the highest level.
pub const MAXIMUM_WORDS: [&'static str; 2] = ["maximum", "максимум"];

/// Names of the brightness of the screen.
pub const BRIGHTNESS_WORDS: [&'static str; 3] = ["яркість", "яркість екрану", "brightness"];

/// Names of the volume of the sound.
pub const VOLUME_WORDS: [&'static str; 5] = ["гучність", "звук", "громкість", "sound", "volume"];

/// Words for more.
pub const UP_WORDS: [&'static str; 8] = [
    "більше",
    "плюс",
    "вгору",
    "підніми",
    "додай",
    "вище",
    "up",
    "higher",
];

/// Words for less.
pub const DOWN_WORDS: [&'static str; 8] = [
    "менше",
    "мінус",
    "вниз",
    "зменш",
    "убав",
    "нижче",
    "down",
    "lower",
];

/// Verbs that open an application.
pub const OPEN_WORDS: [&'static str; 5] = ["відкрий", "запусти", "включи", "open", "launch"];

/// Names of the web browser.
pub const FIREFOX_WORDS: [&'static str; 8] = [
    "firefox",
    "файрфокс",
    "браузер",
    "ферфакс",
    "фаєр фокус",
    "фаєрфоксу",
    "browser",
    "internet browser",
];

/// Names of the terminal.
pub const TERMINAL_WORDS: [&'static str; 5] = [
    "термінал",
    "консоль",
    "командний рядок",
    "ghostty",
    "terminal",
];

/// Names of the notebook.
pub const OBSIDIAN_WORDS: [&'static str; 4] = ["obsidian", "обсідіан", "нотатки", "notes"];

/// Names of the game launcher.
pub const STEAM_WORDS: [&'static str; 6] = [
    "ігри",
    "ігровий лаунчер",
    "steam",
    "стім",
    "games",
    "game launcher",
];

/// Names of the file manager.
pub const DOLPHIN_WORDS: [&'static str; 8] = [
    "файли",
    "файловий менеджер",
    "дельфін",
    "провідник",
    "file explorer",
    "dolphin",
    "files",
    "explorer",
];

/// Names of the messenger.
pub const TELEGRAM_WORDS: [&'static str; 4] = ["telegram", "месенджер", "телеграм", "messenger"];

/// Words for the next track.
pub const NEXT_WORDS: [&'static str; 4] = ["наступний", "наступна", "наступне", "next"];

/// Words for the previous track.
pub const PREVIOUS_WORDS: [&'static str; 6] = [
    "минула",
    "минулий",
    "минуле",
    "минулі",
    "минуло",
    "previous",
];

/// Verbs that switch something on.
pub const ENABLE_WORDS: [&'static str; 5] = ["увімкни", "включи", "enable", "turn on", "activate"];

/// Verbs that switch something off.
pub const DISABLE_WORDS: [&'static str; 5] = [
    "вимкни",
    "виключи",
    "disable",
    "turn off",
    "deactivate",
];

/// Names of the wireless network.
pub const WIFI_WORDS: [&'static str; 4] = ["wifi", "wi-fi", "вайфай", "бездротовий інтернет"];

/// Names of Bluetooth.
pub const BLUETOOTH_WORDS: [&'static str; 4] = ["bluetooth", "блутуз", "блютуз", "бездротовий"];

/// Names of the night light.
pub const NIGHT_LIGHT_WORDS: [&'static str; 3] = ["нічний режим", "night light", "нічне світло"];

/// Names of the do-not-disturb mode.
pub const DO_NOT_DISTURB_WORDS: [&'static str; 4] = [
    "не турбувати",
    "do not disturb",
    "dnd",
    "тихий режим",
];

/// Words that pause or resume what is playing.
pub const PAUSE_WORDS: [&'static str; 6] = [
    "постав на паузу",
    "пауза",
    "віднови",
    "зніми з паузи",
    "play",
    "pause",
];

} // verus!
