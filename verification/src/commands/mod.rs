//! The closed set of commands, the classifier that finds one in a text, and
//! the executor that carries one out.

use vstd::prelude::*;

pub mod executor;
pub mod matching;
pub mod parser;
pub mod vocabulary;

verus! {

/// The switches of the desktop that a command can flip.
#[derive(Debug, Clone, Copy, PartialEq, Eq, Structural)]
pub enum SystemToggles {
    Volume,
    Wifi,
    Bluetooth,
    NightLight,
    DoNotDisturb,
}

impl SystemToggles {
    /// Every switch, in the order of their declaration.
    pub fn _iter() -> (all: [SystemToggles; 5])
        ensures
            all@ == seq![
                SystemToggles::Volume,
                SystemToggles::Wifi,
                SystemToggles::Bluetooth,
                SystemToggles::NightLight,
                SystemToggles::DoNotDisturb,
            ],
    {
        let all = [
            SystemToggles::Volume,
            SystemToggles::Wifi,
            SystemToggles::Bluetooth,
            SystemToggles::NightLight,
            SystemToggles::DoNotDisturb,
        ];
        proof {
            assert(all@ =~= seq![
                SystemToggles::Volume,
                SystemToggles::Wifi,
                SystemToggles::Bluetooth,
                SystemToggles::NightLight,
                SystemToggles::DoNotDisturb,
            ]);
        }
        all
    }
}

/// The applications that a command can open.
#[derive(Debug, Clone, Copy, PartialEq, Eq, Structural)]
pub enum App {
    Firefox,
    Terminal,
    Obsidian,
    Telegram,
    Steam,
    Dolphin,
}

/// What the user asked for.
#[derive(Debug, Clone)]
pub enum Command {
    OpenApp(App),
    VolumeUp,
    VolumeDown,
    VolumeMute,
    VolumeMax,
    BrightnessUp,
    BrightnessDown,
    BrightnessMax,
    BrightnessMin,
    AudioPause,
    AudioNext,
    AudioPrevious,
    Poweroff,
    Reboot,
    Sleep,
    /// A search on the web, with the query as it was spoken.
    FindInInternet(String),
    EndConversation,
    Screenshot,
    SystemToggle(SystemToggles),
    Quit,
    /// No command was found; the normalized text is kept.
    Unknown(String),
}

/// A command with its texts as sequences of characters.
pub enum CommandView {
    OpenApp(App),
    VolumeUp,
    VolumeDown,
    VolumeMute,
    VolumeMax,
    BrightnessUp,
    BrightnessDown,
    BrightnessMax,
    BrightnessMin,
    AudioPause,
    AudioNext,
    AudioPrevious,
    Poweroff,
    Reboot,
    Sleep,
    FindInInternet(Seq<char>),
    EndConversation,
    Screenshot,
    SystemToggle(SystemToggles),
    Quit,
    Unknown(Seq<char>),
}

impl View for Command {
    type V = CommandView;

    open spec fn view(&self) -> CommandView {
        match self {
            Command::OpenApp(app) => CommandView::OpenApp(*app),
            Command::VolumeUp => CommandView::VolumeUp,
            Command::VolumeDown => CommandView::VolumeDown,
            Command::VolumeMute => CommandView::VolumeMute,
            Command::VolumeMax => CommandView::VolumeMax,
            Command::BrightnessUp => CommandView::BrightnessUp,
            Command::BrightnessDown => CommandView::BrightnessDown,
            Command::BrightnessMax => CommandView::BrightnessMax,
            Command::BrightnessMin => CommandView::BrightnessMin,
            Command::AudioPause => CommandView::AudioPause,
            Command::AudioNext => CommandView::AudioNext,
            Command::AudioPrevious => CommandView::AudioPrevious,
            Command::Poweroff => CommandView::Poweroff,
            Command::Reboot => CommandView::Reboot,
            Command::Sleep => CommandView::Sleep,
            Command::FindInInternet(query) => CommandView::FindInInternet(query@),
            Command::EndConversation => CommandView::EndConversation,
            Command::Screenshot => CommandView::Screenshot,
            Command::SystemToggle(toggle) => CommandView::SystemToggle(*toggle),
            Command::Quit => CommandView::Quit,
            Command::Unknown(text) => CommandView::Unknown(text@),
        }
    }
}

/// What the session does after a command was carried out.
#[derive(Debug, Clone, Copy, PartialEq, Eq, Structural)]
pub enum CommandResult {
    Running,
    EndConversation,
    Quit,
}

} // verus!
