//! Carrying a command out: which programs are started, in which order, and
//! what the session does afterwards.
//!
//! Programs are started through a [`Runner`]. A runner keeps, for the proofs
//! only, the list of every request made of it; the contracts below say what
//! each command adds to that list.

use vstd::prelude::*;
use crate::bindings::{cut_at, is_trim_of, trim};
use crate::commands::matching::{contains, occurs_at, views};
use crate::commands::{App, Command, CommandResult, CommandView, SystemToggles};
use crate::normalizer::text::{append_text, same_text, to_chars};

verus! {

/// One request made of a runner, with the answer it gave.
pub enum Call {
    /// A program was started, or failed to start.
    Spawn { program: Seq<char>, args: Seq<Seq<char>>, started: bool },
    /// A program was run to its end for its output; `None` where it failed.
    Output { program: Seq<char>, args: Seq<Seq<char>>, output: Option<Seq<char>> },
    /// An address was handed to the desktop to open.
    Open { url: Seq<char>, opened: bool },
}

/// The text of an output that may be missing.
pub open spec fn text_of(output: Option<String>) -> Option<Seq<char>> {
    match output {
        Some(text) => Some(text@),
        None => None,
    }
}

/// What starts programs for the executor. An implementation answers for its
/// own contract: that each request is added to `calls`, with its answer, and
/// nothing else is. What is proved of the executor holds of every runner
/// that keeps this contract.
pub trait Runner {
    /// Every request made of this runner so far, oldest first; it exists
    /// for proofs only. A verified runner keeps the list as a ghost value
    /// and gives it here. The body below says nothing of any runner and
    /// meets the contract of none: it is there because a trait cannot be
    /// implemented in code without ghost code unless each of its ghost
    /// functions has a body, and of such a runner nothing is verified.
    open spec fn calls(&self) -> Seq<Call> {
        arbitrary()
    }

    /// Starts a program without waiting for it; tells whether it started.
    fn spawn(&mut self, program: &str, args: &[&str]) -> (started: bool)
        ensures
            final(self).calls() == old(self).calls().push(
                (Call::Spawn { program: program@, args: views(args@), started }),
            ),
    ;

    /// Runs a program to its end; gives its output where it succeeded.
    fn exec_output(&mut self, program: &str, args: &[&str]) -> (output: Option<String>)
        ensures
            final(self).calls() == old(self).calls().push(
                (Call::Output { program: program@, args: views(args@), output: text_of(output) }),
            ),
    ;

    /// Opens an address with the program that the desktop has for it.
    fn open_url(&mut self, url: &str) -> (opened: bool)
        ensures
            final(self).calls() == old(self).calls().push((Call::Open { url: url@, opened })),
    ;
}

/// Whether `after` is `before` with more requests at its end.
pub open spec fn extends(before: Seq<Call>, after: Seq<Call>) -> bool {
    before.len() <= after.len() && after.take(before.len() as int) == before
}

/// The requests that `after` has at its end beyond those of `before`.
pub open spec fn added(before: Seq<Call>, after: Seq<Call>) -> Seq<Call> {
    after.skip(before.len() as int)
}

/// Whether `call` started, or tried to start, the program with the arguments.
pub open spec fn spawn_of(call: Call, program: Seq<char>, args: Seq<Seq<char>>) -> bool {
    call == (Call::Spawn { program, args, started: true }) || call == (Call::Spawn {
        program,
        args,
        started: false,
    })
}

/// Whether `call` tried to start the program with the arguments and failed.
pub open spec fn spawn_failed(call: Call, program: Seq<char>, args: Seq<Seq<char>>) -> bool {
    call == (Call::Spawn { program, args, started: false })
}

/// Whether `call` started the program with the arguments.
pub open spec fn spawn_started(call: Call, program: Seq<char>, args: Seq<Seq<char>>) -> bool {
    call == (Call::Spawn { program, args, started: true })
}

/// Whether `call` ran the program with the arguments for its output.
pub open spec fn output_of(call: Call, program: Seq<char>, args: Seq<Seq<char>>) -> bool {
    call matches Call::Output { program: p, args: a, .. } && p == program && a == args
}

/// The output that `call` gave, if it asked for one and got it.
pub open spec fn answer(call: Call) -> Option<Seq<char>> {
    match call {
        Call::Output { output, .. } => output,
        _ => None,
    }
}

/// Whether the requests are a single start of the program.
pub open spec fn one_spawn(trace: Seq<Call>, program: Seq<char>, args: Seq<Seq<char>>) -> bool {
    trace.len() == 1 && spawn_of(trace[0], program, args)
}

/// Whether the requests start `program` and, only where that failed, the
/// other one with `other_args`.
pub open spec fn spawn_or_else(
    trace: Seq<Call>,
    program: Seq<char>,
    other: Seq<char>,
    other_args: Seq<Seq<char>>,
) -> bool {
    ||| trace.len() == 1 && spawn_started(trace[0], program, Seq::empty())
    ||| trace.len() == 2 && spawn_failed(trace[0], program, Seq::empty()) && spawn_of(
        trace[1],
        other,
        other_args,
    )
}

/// Whether an output reads `expected` once the white space at its two ends
/// is cut away.
pub open spec fn reports(output: Option<Seq<char>>, expected: Seq<char>) -> bool {
    output matches Some(text) && is_trim_of(text, expected)
}

/// A text has one reading without the white space at its ends, not two.
pub proof fn lemma_trim_is_unique(text: Seq<char>, one: Seq<char>, other: Seq<char>)
    requires
        is_trim_of(text, one),
        is_trim_of(text, other),
    ensures
        one == other,
{
    let a = choose|from: int| cut_at(text, one, from);
    let b = choose|from: int| cut_at(text, other, from);
    if one.len() == 0 {
        if other.len() > 0 {
            assert(other[0] == text.subrange(b, b + other.len())[0]);
            assert(other[0] == text[b]);
        }
        assert(one =~= other);
    } else if other.len() == 0 {
        assert(one[0] == text.subrange(a, a + one.len())[0]);
        assert(one[0] == text[a]);
    } else {
        assert(one[0] == text.subrange(a, a + one.len())[0]);
        assert(other[0] == text.subrange(b, b + other.len())[0]);
        assert(text[a] == one[0] && text[b] == other[0]);
        assert(a == b);
        assert(one.last() == text.subrange(a, a + one.len())[one.len() - 1]);
        assert(other.last() == text.subrange(b, b + other.len())[other.len() - 1]);
        assert(text[a + one.len() - 1] == one.last());
        assert(text[b + other.len() - 1] == other.last());
        assert(one.len() == other.len());
    }
}

/// An output in which a word does not stand does not read that word, and
/// neither does a missing output.
pub proof fn lemma_no_report_without_the_word(output: Option<Seq<char>>, expected: Seq<char>)
    requires
        output matches Some(text) ==> !contains(text, expected),
    ensures
        !reports(output, expected),
{
    if reports(output, expected) {
        lemma_report_stands_in_output(output, expected);
    }
}

/// An output can only read what stands in it.
pub proof fn lemma_report_stands_in_output(output: Option<Seq<char>>, expected: Seq<char>)
    requires
        reports(output, expected),
    ensures
        output is Some,
        contains(output->0, expected),
{
    let text = output->0;
    let from = choose|from: int| cut_at(text, expected, from);
    assert(occurs_at(text, expected, from));
}

/// Whether a character is a decimal digit.
pub open spec fn is_digit(c: char) -> bool {
    '0' <= c <= '9'
}

/// The decimal digits of a text, in their order.
pub open spec fn digits_of(text: Seq<char>) -> Seq<char>
    decreases text.len(),
{
    if text.len() == 0 {
        Seq::empty()
    } else if is_digit(text.last()) {
        digits_of(text.drop_last()).push(text.last())
    } else {
        digits_of(text.drop_last())
    }
}

/// The number that a sequence of digits writes.
pub open spec fn decimal(digits: Seq<char>) -> nat
    decreases digits.len(),
{
    if digits.len() == 0 {
        0
    } else {
        (decimal(digits.drop_last()) * 10 + (digits.last() as nat - '0' as nat)) as nat
    }
}

/// The first five digits of a text, or all it has.
pub open spec fn leading_digits(text: Seq<char>) -> Seq<char> {
    let digits = digits_of(text);
    if digits.len() <= 5 {
        digits
    } else {
        digits.take(5)
    }
}

/// The colour temperature that a report of the screen's colour names: the
/// number written by its first five digits, or 1000 where it has no digit or
/// the number does not fit in sixteen bits.
pub open spec fn temperature_of(report: Seq<char>) -> nat {
    let digits = leading_digits(report);
    if digits.len() == 0 || decimal(digits) > 65535 {
        1000
    } else {
        decimal(digits)
    }
}

/// The address of a search for `query`.
pub open spec fn search_url(query: Seq<char>) -> Seq<char> {
    "https://www.google.com/search?q="@ + query
}

/// A text between two double quotes.
pub open spec fn quoted(text: Seq<char>) -> Seq<char> {
    "\""@ + text + "\""@
}

/// What opening an application asks of the runner. Three of them have a
/// second way to start, tried only where the first failed; the messenger has
/// a third.
pub open spec fn opens(app: App, trace: Seq<Call>) -> bool {
    match app {
        App::Firefox => one_spawn(trace, "firefox"@, Seq::empty()),
        App::Terminal => one_spawn(trace, "ghostty"@, Seq::empty()),
        App::Dolphin => one_spawn(trace, "dolphin"@, Seq::empty()),
        App::Obsidian => spawn_or_else(
            trace,
            "obsidian"@,
            "flatpak"@,
            seq!["run"@, "md.obsidian.Obsidian"@],
        ),
        App::Steam => spawn_or_else(
            trace,
            "steam"@,
            "flatpak"@,
            seq!["run"@, "com.valvesoftware.Steam"@],
        ),
        App::Telegram => {
            ||| trace.len() == 1 && spawn_started(trace[0], "Telegram"@, Seq::empty())
            ||| trace.len() == 2 && spawn_failed(trace[0], "Telegram"@, Seq::empty())
                && spawn_started(trace[1], "telegram-desktop"@, Seq::empty())
            ||| trace.len() == 3 && spawn_failed(trace[0], "Telegram"@, Seq::empty())
                && spawn_failed(trace[1], "telegram-desktop"@, Seq::empty()) && spawn_of(
                trace[2],
                "flatpak"@,
                seq!["run"@, "org.telegram.desktop"@],
            )
        },
    }
}

/// What flipping the wireless network asks: its state, then the opposite.
pub open spec fn flips_wifi(trace: Seq<Call>) -> bool {
    &&& trace.len() == 2
    &&& output_of(trace[0], "nmcli"@, seq!["-t"@, "-f"@, "wifi"@, "radio"@])
    &&& spawn_of(
        trace[1],
        "nmcli"@,
        seq![
            "radio"@,
            "wifi"@,
            if reports(answer(trace[0]), "enabled"@) {
                "off"@
            } else {
                "on"@
            },
        ],
    )
}

/// The wireless network is switched on wherever its state does not hold the
/// word `enabled`, and where the state cannot be had.
pub proof fn lemma_wifi_goes_on_without_the_word(trace: Seq<Call>)
    requires
        flips_wifi(trace),
        answer(trace[0]) matches Some(text) ==> !contains(text, "enabled"@),
    ensures
        spawn_of(trace[1], "nmcli"@, seq!["radio"@, "wifi"@, "on"@]),
{
    lemma_no_report_without_the_word(answer(trace[0]), "enabled"@);
}

/// What flipping Bluetooth asks: its state, then the opposite.
pub open spec fn flips_bluetooth(trace: Seq<Call>) -> bool {
    &&& trace.len() == 2
    &&& output_of(trace[0], "bluetooth"@, Seq::empty())
    &&& spawn_of(
        trace[1],
        "bluetoothctl"@,
        seq![
            "power"@,
            if reports(answer(trace[0]), "bluetooth = on"@) {
                "off"@
            } else {
                "on"@
            },
        ],
    )
}

/// Bluetooth is switched on wherever its state does not hold the words
/// `bluetooth = on`, and where the state cannot be had.
pub proof fn lemma_bluetooth_goes_on_without_the_words(trace: Seq<Call>)
    requires
        flips_bluetooth(trace),
        answer(trace[0]) matches Some(text) ==> !contains(text, "bluetooth = on"@),
    ensures
        spawn_of(trace[1], "bluetoothctl"@, seq!["power"@, "on"@]),
{
    lemma_no_report_without_the_word(answer(trace[0]), "bluetooth = on"@);
}

/// What flipping the night light asks: the colour temperature, then the
/// other of the two temperatures. Where the temperature cannot be had,
/// nothing more is asked.
pub open spec fn flips_night_light(trace: Seq<Call>) -> bool {
    &&& trace.len() >= 1
    &&& output_of(trace[0], "xsct"@, Seq::empty())
    &&& match answer(trace[0]) {
        None => trace.len() == 1,
        Some(report) => trace.len() == 2 && spawn_of(
            trace[1],
            "xsct"@,
            seq![
                if temperature_of(report) == 6500 {
                    "4500"@
                } else {
                    "6500"@
                },
            ],
        ),
    }
}

/// What a shortcut of the desktop asks of the runner.
pub open spec fn invokes_shortcut(trace: Seq<Call>, component: Seq<char>, shortcut: Seq<char>) -> bool {
    one_spawn(
        trace,
        "qdbus6"@,
        seq![
            "org.kde.kglobalaccel"@,
            component,
            "org.kde.kglobalaccel.Component.invokeShortcut"@,
            quoted(shortcut),
        ],
    )
}

/// What flipping a switch asks of the runner.
pub open spec fn flips(toggle: SystemToggles, trace: Seq<Call>) -> bool {
    match toggle {
        SystemToggles::Volume => one_spawn(
            trace,
            "wpctl"@,
            seq!["set-mute"@, "@DEFAULT_AUDIO_SINK@"@, "toggle"@],
        ),
        SystemToggles::Wifi => flips_wifi(trace),
        SystemToggles::Bluetooth => flips_bluetooth(trace),
        SystemToggles::NightLight => flips_night_light(trace),
        SystemToggles::DoNotDisturb => invokes_shortcut(
            trace,
            "/component/plasmashell"@,
            "toggle do not disturb"@,
        ),
    }
}

/// What setting the volume asks of the runner.
pub open spec fn sets_volume(trace: Seq<Call>, change: Seq<char>) -> bool {
    one_spawn(trace, "wpctl"@, seq!["set-volume"@, "@DEFAULT_AUDIO_SINK@"@, change])
}

/// What setting the brightness asks of the runner.
pub open spec fn sets_brightness(trace: Seq<Call>, change: Seq<char>) -> bool {
    one_spawn(trace, "brightnessctl"@, seq!["set"@, change])
}

/// What a command for the player asks of the runner.
pub open spec fn tells_player(trace: Seq<Call>, order: Seq<char>) -> bool {
    one_spawn(trace, "playerctl"@, seq![order])
}

/// What going back one track asks: the order twice, since the first only
/// starts the track again.
pub open spec fn goes_back(trace: Seq<Call>) -> bool {
    &&& trace.len() == 2
    &&& spawn_of(trace[0], "playerctl"@, seq!["previous"@])
    &&& spawn_of(trace[1], "playerctl"@, seq!["previous"@])
}

/// What a search on the web asks of the runner.
pub open spec fn searches(trace: Seq<Call>, query: Seq<char>) -> bool {
    trace.len() == 1 && (trace[0] matches Call::Open { url, .. } && url == search_url(query))
}

/// The requests by which a command is carried out. Ending the conversation,
/// quitting and an unknown command ask nothing.
pub open spec fn carried_out(command: CommandView, trace: Seq<Call>) -> bool {
    match command {
        CommandView::OpenApp(app) => opens(app, trace),
        CommandView::VolumeUp => sets_volume(trace, "5%+"@),
        CommandView::VolumeDown => sets_volume(trace, "5%-"@),
        CommandView::VolumeMax => sets_volume(trace, "100%"@),
        CommandView::VolumeMute => flips(SystemToggles::Volume, trace),
        CommandView::BrightnessUp => sets_brightness(trace, "10%+"@),
        CommandView::BrightnessDown => sets_brightness(trace, "10%-"@),
        CommandView::BrightnessMax => sets_brightness(trace, "100%"@),
        CommandView::BrightnessMin => sets_brightness(trace, "5%"@),
        CommandView::AudioPause => tells_player(trace, "play-pause"@),
        CommandView::AudioNext => tells_player(trace, "next"@),
        CommandView::AudioPrevious => goes_back(trace),
        CommandView::Poweroff => one_spawn(trace, "poweroff"@, Seq::empty()),
        CommandView::Reboot => one_spawn(trace, "reboot"@, Seq::empty()),
        CommandView::Sleep => one_spawn(trace, "systemctl"@, seq!["suspend"@]),
        CommandView::FindInInternet(query) => searches(trace, query),
        CommandView::Screenshot => one_spawn(trace, "spectacle"@, Seq::empty()),
        CommandView::SystemToggle(toggle) => flips(toggle, trace),
        CommandView::EndConversation => trace.len() == 0,
        CommandView::Quit => trace.len() == 0,
        CommandView::Unknown(_) => trace.len() == 0,
    }
}

/// What the session does after a command: it ends after a quit and after
/// the computer was told to switch off or start again, leaves the
/// conversation where that was asked, and runs on after everything else.
pub open spec fn outcome(command: CommandView) -> CommandResult {
    match command {
        CommandView::Quit | CommandView::Poweroff | CommandView::Reboot => CommandResult::Quit,
        CommandView::EndConversation => CommandResult::EndConversation,
        _ => CommandResult::Running,
    }
}

/// Without a request nothing is added.
pub proof fn lemma_nothing_added(before: Seq<Call>)
    ensures
        extends(before, before),
        added(before, before) == Seq::<Call>::empty(),
{
    assert(before.take(before.len() as int) =~= before);
    assert(added(before, before) =~= Seq::<Call>::empty());
}

/// One request adds itself and nothing else.
pub proof fn lemma_one_added(before: Seq<Call>, call: Call)
    ensures
        extends(before, before.push(call)),
        added(before, before.push(call)) == seq![call],
{
    assert(before.push(call).take(before.len() as int) =~= before);
    assert(added(before, before.push(call)) =~= seq![call]);
}

/// A first stretch of requests and a second make one stretch.
pub proof fn lemma_then(before: Seq<Call>, middle: Seq<Call>, after: Seq<Call>)
    requires
        extends(before, middle),
        extends(middle, after),
    ensures
        extends(before, after),
        added(before, after) == added(before, middle) + added(middle, after),
{
    assert(after.take(before.len() as int) =~= middle.take(before.len() as int)) by {
        assert(after.take(middle.len() as int).take(before.len() as int) =~= after.take(
            before.len() as int,
        ));
    }
    assert(added(before, after) =~= added(before, middle) + added(middle, after)) by {
        assert forall|i: int| 0 <= i < added(before, middle).len() implies added(before, after)[i]
            == added(before, middle)[i] by {
            assert(after.take(middle.len() as int)[before.len() + i] == middle[before.len() + i]);
        }
    }
}

/// Starts a program, and records what that added to the runner's requests.
fn start<R: Runner>(runner: &mut R, program: &str, args: &[&str]) -> (started: bool)
    ensures
        extends(old(runner).calls(), final(runner).calls()),
        added(old(runner).calls(), final(runner).calls()) == seq![
            (Call::Spawn { program: program@, args: views(args@), started }),
        ],
{
    let started = runner.spawn(program, args);
    proof {
        let call = Call::Spawn { program: program@, args: views(args@), started };
        lemma_one_added(old(runner).calls(), call);
    }
    started
}

/// Runs a program for its output, and records what that added to the
/// runner's requests.
fn ask<R: Runner>(runner: &mut R, program: &str, args: &[&str]) -> (output: Option<String>)
    ensures
        extends(old(runner).calls(), final(runner).calls()),
        added(old(runner).calls(), final(runner).calls()) == seq![
            (Call::Output { program: program@, args: views(args@), output: text_of(output) }),
        ],
{
    let output = runner.exec_output(program, args);
    proof {
        let call = Call::Output { program: program@, args: views(args@), output: text_of(output) };
        lemma_one_added(old(runner).calls(), call);
    }
    output
}

/// Starts a program without arguments.
fn start_bare<R: Runner>(runner: &mut R, program: &str) -> (started: bool)
    ensures
        extends(old(runner).calls(), final(runner).calls()),
        added(old(runner).calls(), final(runner).calls()) == seq![
            (Call::Spawn { program: program@, args: Seq::empty(), started }),
        ],
{
    let args: [&str; 0] = [];
    proof {
        assert(views(args@) =~= Seq::<Seq<char>>::empty());
    }
    start(runner, program, &args)
}

/// Starts a packaged application through `flatpak run`.
fn start_packaged<R: Runner>(runner: &mut R, package: &str) -> (started: bool)
    ensures
        extends(old(runner).calls(), final(runner).calls()),
        added(old(runner).calls(), final(runner).calls()) == seq![
            (Call::Spawn { program: "flatpak"@, args: seq!["run"@, package@], started }),
        ],
{
    let args = ["run", package];
    proof {
        assert(views(args@) =~= seq!["run"@, package@]);
    }
    start(runner, "flatpak", &args)
}

/// Carries a command out through `runner` and tells what the session does
/// next.
pub fn execute_with<R: Runner>(runner: &mut R, cmd: Command) -> (result: CommandResult)
    ensures
        result == outcome(cmd@),
        extends(old(runner).calls(), final(runner).calls()),
        carried_out(cmd@, added(old(runner).calls(), final(runner).calls())),
{
    proof {
        lemma_nothing_added(old(runner).calls());
    }
    match cmd {
        Command::OpenApp(app) => {
            open_app(runner, app);
            CommandResult::Running
        },
        Command::VolumeUp => {
            set_volume(runner, "5%+");
            CommandResult::Running
        },
        Command::VolumeDown => {
            set_volume(runner, "5%-");
            CommandResult::Running
        },
        Command::VolumeMute => {
            system_toggle(runner, SystemToggles::Volume);
            CommandResult::Running
        },
        Command::AudioPause => {
            audio_pause(runner);
            CommandResult::Running
        },
        Command::AudioNext => {
            audio_next(runner);
            CommandResult::Running
        },
        Command::AudioPrevious => {
            audio_previous(runner);
            CommandResult::Running
        },
        Command::FindInInternet(prompt) => {
            find_in_internet(runner, prompt.as_str());
            CommandResult::Running
        },
        Command::EndConversation => CommandResult::EndConversation,
        Command::Screenshot => {
            screenshot(runner);
            CommandResult::Running
        },
        Command::BrightnessDown => {
            set_brightness(runner, "10%-");
            CommandResult::Running
        },
        Command::BrightnessUp => {
            set_brightness(runner, "10%+");
            CommandResult::Running
        },
        Command::BrightnessMax => {
            set_brightness(runner, "100%");
            CommandResult::Running
        },
        Command::BrightnessMin => {
            set_brightness(runner, "5%");
            CommandResult::Running
        },
        Command::VolumeMax => {
            set_volume(runner, "100%");
            CommandResult::Running
        },
        Command::SystemToggle(toggle) => {
            system_toggle(runner, toggle);
            CommandResult::Running
        },
        Command::Poweroff => {
            poweroff(runner);
            CommandResult::Quit
        },
        Command::Reboot => {
            reboot(runner);
            CommandResult::Quit
        },
        Command::Sleep => {
            sleep(runner);
            CommandResult::Running
        },
        Command::Quit => CommandResult::Quit,
        Command::Unknown(_text) => CommandResult::Running,
    }
}

/// Opens an application: by its own name first, then the other ways it has.
pub fn open_app<R: Runner>(runner: &mut R, app: App)
    ensures
        extends(old(runner).calls(), final(runner).calls()),
        opens(app, added(old(runner).calls(), final(runner).calls())),
{
    match app {
        App::Firefox => {
            start_bare(runner, "firefox");
        },
        App::Terminal => {
            start_bare(runner, "ghostty");
        },
        App::Dolphin => {
            start_bare(runner, "dolphin");
        },
        App::Obsidian => {
            if !start_bare(runner, "obsidian") {
                let ghost middle = runner.calls();
                start_packaged(runner, "md.obsidian.Obsidian");
                proof {
                    lemma_then(old(runner).calls(), middle, runner.calls());
                }
            }
        },
        App::Steam => {
            if !start_bare(runner, "steam") {
                let ghost middle = runner.calls();
                start_packaged(runner, "com.valvesoftware.Steam");
                proof {
                    lemma_then(old(runner).calls(), middle, runner.calls());
                }
            }
        },
        App::Telegram => {
            if !start_bare(runner, "Telegram") {
                let ghost first = runner.calls();
                let started = start_bare(runner, "telegram-desktop");
                let ghost second = runner.calls();
                proof {
                    lemma_then(old(runner).calls(), first, second);
                }
                if !started {
                    start_packaged(runner, "org.telegram.desktop");
                    proof {
                        lemma_then(old(runner).calls(), second, runner.calls());
                    }
                }
            }
        },
    }
}

/// Flips a switch of the desktop.
pub fn system_toggle<R: Runner>(runner: &mut R, toggle: SystemToggles)
    ensures
        extends(old(runner).calls(), final(runner).calls()),
        flips(toggle, added(old(runner).calls(), final(runner).calls())),
{
    match toggle {
        SystemToggles::Volume => {
            let args = ["set-mute", "@DEFAULT_AUDIO_SINK@", "toggle"];
            proof {
                assert(views(args@) =~= seq!["set-mute"@, "@DEFAULT_AUDIO_SINK@"@, "toggle"@]);
            }
            start(runner, "wpctl", &args);
        },
        SystemToggles::Wifi => {
            toggle_wifi(runner);
        },
        SystemToggles::Bluetooth => {
            toggle_bluetooth(runner);
        },
        SystemToggles::NightLight => {
            toggle_night_light(runner);
        },
        SystemToggles::DoNotDisturb => {
            run_kde_command(runner, "/component/plasmashell", "toggle do not disturb");
        },
    }
}

/// Tests whether an output reads `expected` once the white space at its
/// two ends is cut away.
pub fn reads(output: &Option<String>, expected: &str) -> (yes: bool)
    ensures
        yes == reports(text_of(*output), expected@),
{
    match output {
        Some(text) => {
            let inner = trim(text.as_str());
            let same = same_text(inner, expected);
            proof {
                if !same && is_trim_of(text@, expected@) {
                    lemma_trim_is_unique(text@, inner@, expected@);
                }
            }
            same
        },
        None => false,
    }
}

/// Switches the wireless network off where it reports itself enabled, and
/// on otherwise.
pub fn toggle_wifi<R: Runner>(runner: &mut R)
    ensures
        extends(old(runner).calls(), final(runner).calls()),
        flips_wifi(added(old(runner).calls(), final(runner).calls())),
{
    let query = ["-t", "-f", "wifi", "radio"];
    proof {
        assert(views(query@) =~= seq!["-t"@, "-f"@, "wifi"@, "radio"@]);
    }
    let wifi_status = ask(runner, "nmcli", &query);
    let ghost middle = runner.calls();
    if reads(&wifi_status, "enabled") {
        let args = ["radio", "wifi", "off"];
        proof {
            assert(views(args@) =~= seq!["radio"@, "wifi"@, "off"@]);
        }
        start(runner, "nmcli", &args);
    } else {
        let args = ["radio", "wifi", "on"];
        proof {
            assert(views(args@) =~= seq!["radio"@, "wifi"@, "on"@]);
        }
        start(runner, "nmcli", &args);
    }
    proof {
        lemma_then(old(runner).calls(), middle, runner.calls());
    }
}

/// Tests whether a character is a decimal digit.
pub fn digit(c: char) -> (yes: bool)
    ensures
        yes == is_digit(c),
{
    '0' <= c && c <= '9'
}

/// The largest number that so many digits can write, and one more.
pub open spec fn limit(digits: int) -> int {
    if digits <= 0 {
        1
    } else if digits == 1 {
        10
    } else if digits == 2 {
        100
    } else if digits == 3 {
        1000
    } else if digits == 4 {
        10000
    } else {
        100000
    }
}

/// Reads the colour temperature out of a report of the screen's colour.
pub fn temperature(report: &str) -> (kelvin: u16)
    ensures
        kelvin == temperature_of(report@),
{
    let chars = to_chars(report);
    let mut seen: usize = 0;
    let mut value: u32 = 0;
    let mut i: usize = 0;
    while i < chars.len()
        invariant
            i <= chars@.len(),
            seen <= 5,
            seen <= digits_of(chars@.take(i as int)).len(),
            seen < 5 ==> seen == digits_of(chars@.take(i as int)).len(),
            leading_digits(chars@.take(i as int)).len() == seen,
            value == decimal(leading_digits(chars@.take(i as int))),
            value < limit(seen as int),
        decreases chars@.len() - i,
    {
        let c = chars[i];
        proof {
            assert(chars@.take(i + 1).drop_last() =~= chars@.take(i as int));
            let digits = digits_of(chars@.take(i as int));
            let longer = digits_of(chars@.take(i + 1));
            if is_digit(c) {
                assert(longer == digits.push(c));
                if seen < 5 {
                    assert(longer.drop_last() =~= digits);
                    assert(leading_digits(chars@.take(i + 1)) == longer);
                    assert(decimal(longer) == decimal(digits) * 10 + (c as nat - '0' as nat));
                } else {
                    assert(longer.take(5) =~= digits.take(5));
                    assert(digits.take(5) =~= leading_digits(chars@.take(i as int)));
                }
            } else {
                assert(longer == digits);
            }
        }
        if digit(c) && seen < 5 {
            value = value * 10 + (c as u32 - '0' as u32);
            seen += 1;
        }
        i += 1;
    }
    proof {
        assert(chars@.take(i as int) =~= chars@);
    }
    if seen == 0 || value > 65535 {
        1000
    } else {
        value as u16
    }
}

/// Switches the night light: to the warm colour where the screen reports
/// daylight, to daylight otherwise. Does nothing more where the screen gives
/// no report.
pub fn toggle_night_light<R: Runner>(runner: &mut R)
    ensures
        extends(old(runner).calls(), final(runner).calls()),
        flips_night_light(added(old(runner).calls(), final(runner).calls())),
{
    let none: [&str; 0] = [];
    proof {
        assert(views(none@) =~= Seq::<Seq<char>>::empty());
    }
    let night_light_status = ask(runner, "xsct", &none);
    let ghost middle = runner.calls();
    if let Some(status) = night_light_status {
        if temperature(status.as_str()) == 6500 {
            let args = ["4500"];
            proof {
                assert(views(args@) =~= seq!["4500"@]);
            }
            start(runner, "xsct", &args);
        } else {
            let args = ["6500"];
            proof {
                assert(views(args@) =~= seq!["6500"@]);
            }
            start(runner, "xsct", &args);
        }
        proof {
            lemma_then(old(runner).calls(), middle, runner.calls());
        }
    }
}

/// Switches Bluetooth off where it reports itself on, and on otherwise.
pub fn toggle_bluetooth<R: Runner>(runner: &mut R)
    ensures
        extends(old(runner).calls(), final(runner).calls()),
        flips_bluetooth(added(old(runner).calls(), final(runner).calls())),
{
    let none: [&str; 0] = [];
    proof {
        assert(views(none@) =~= Seq::<Seq<char>>::empty());
    }
    let bluetooth_status = ask(runner, "bluetooth", &none);
    let ghost middle = runner.calls();
    if reads(&bluetooth_status, "bluetooth = on") {
        let args = ["power", "off"];
        proof {
            assert(views(args@) =~= seq!["power"@, "off"@]);
        }
        start(runner, "bluetoothctl", &args);
    } else {
        let args = ["power", "on"];
        proof {
            assert(views(args@) =~= seq!["power"@, "on"@]);
        }
        start(runner, "bluetoothctl", &args);
    }
    proof {
        lemma_then(old(runner).calls(), middle, runner.calls());
    }
}

/// Puts a text between double quotes.
pub fn quote(text: &str) -> (out: String)
    ensures
        out@ == quoted(text@),
{
    let mut out = String::new();
    append_text(&mut out, "\"");
    append_text(&mut out, text);
    append_text(&mut out, "\"");
    proof {
        assert(out@ =~= quoted(text@));
    }
    out
}

/// Invokes a global shortcut of the desktop.
pub fn run_kde_command<R: Runner>(runner: &mut R, component: &str, program: &str)
    ensures
        extends(old(runner).calls(), final(runner).calls()),
        invokes_shortcut(
            added(old(runner).calls(), final(runner).calls()),
            component@,
            program@,
        ),
{
    let shortcut = quote(program);
    let args = [
        "org.kde.kglobalaccel",
        component,
        "org.kde.kglobalaccel.Component.invokeShortcut",
        shortcut.as_str(),
    ];
    proof {
        assert(views(args@) =~= seq![
            "org.kde.kglobalaccel"@,
            component@,
            "org.kde.kglobalaccel.Component.invokeShortcut"@,
            quoted(program@),
        ]);
    }
    start(runner, "qdbus6", &args);
}

/// Switches the computer off.
pub fn poweroff<R: Runner>(runner: &mut R)
    ensures
        extends(old(runner).calls(), final(runner).calls()),
        one_spawn(added(old(runner).calls(), final(runner).calls()), "poweroff"@, Seq::empty()),
{
    start_bare(runner, "poweroff");
}

/// Starts the computer again.
pub fn reboot<R: Runner>(runner: &mut R)
    ensures
        extends(old(runner).calls(), final(runner).calls()),
        one_spawn(added(old(runner).calls(), final(runner).calls()), "reboot"@, Seq::empty()),
{
    start_bare(runner, "reboot");
}

/// Puts the computer to sleep.
pub fn sleep<R: Runner>(runner: &mut R)
    ensures
        extends(old(runner).calls(), final(runner).calls()),
        one_spawn(
            added(old(runner).calls(), final(runner).calls()),
            "systemctl"@,
            seq!["suspend"@],
        ),
{
    let args = ["suspend"];
    proof {
        assert(views(args@) =~= seq!["suspend"@]);
    }
    start(runner, "systemctl", &args);
}

/// Builds the address of a search for `prompt`.
pub fn search_address(prompt: &str) -> (url: String)
    ensures
        url@ == search_url(prompt@),
{
    let mut url = String::new();
    append_text(&mut url, "https://www.google.com/search?q=");
    append_text(&mut url, prompt);
    proof {
        assert(url@ =~= search_url(prompt@));
    }
    url
}

/// Opens a search for `prompt` in the browser.
pub fn find_in_internet<R: Runner>(runner: &mut R, prompt: &str)
    ensures
        extends(old(runner).calls(), final(runner).calls()),
        searches(added(old(runner).calls(), final(runner).calls()), prompt@),
{
    let url = search_address(prompt);
    let opened = runner.open_url(url.as_str());
    proof {
        let call = Call::Open { url: url@, opened };
        lemma_one_added(old(runner).calls(), call);
    }
}

/// Takes a picture of the screen.
pub fn screenshot<R: Runner>(runner: &mut R)
    ensures
        extends(old(runner).calls(), final(runner).calls()),
        one_spawn(added(old(runner).calls(), final(runner).calls()), "spectacle"@, Seq::empty()),
{
    start_bare(runner, "spectacle");
}

/// Changes the volume of the default sink by `delta`, or sets it.
pub fn set_volume<R: Runner>(runner: &mut R, delta: &str)
    ensures
        extends(old(runner).calls(), final(runner).calls()),
        sets_volume(added(old(runner).calls(), final(runner).calls()), delta@),
{
    let args = ["set-volume", "@DEFAULT_AUDIO_SINK@", delta];
    proof {
        assert(views(args@) =~= seq!["set-volume"@, "@DEFAULT_AUDIO_SINK@"@, delta@]);
    }
    start(runner, "wpctl", &args);
}

/// Changes the brightness of the screen by `delta`, or sets it.
pub fn set_brightness<R: Runner>(runner: &mut R, delta: &str)
    ensures
        extends(old(runner).calls(), final(runner).calls()),
        sets_brightness(added(old(runner).calls(), final(runner).calls()), delta@),
{
    let args = ["set", delta];
    proof {
        assert(views(args@) =~= seq!["set"@, delta@]);
    }
    start(runner, "brightnessctl", &args);
}

/// Gives the player one order.
fn tell_player<R: Runner>(runner: &mut R, order: &str)
    ensures
        extends(old(runner).calls(), final(runner).calls()),
        tells_player(added(old(runner).calls(), final(runner).calls()), order@),
{
    let args = [order];
    proof {
        assert(views(args@) =~= seq![order@]);
    }
    start(runner, "playerctl", &args);
}

/// Pauses what is playing, or resumes it.
pub fn audio_pause<R: Runner>(runner: &mut R)
    ensures
        extends(old(runner).calls(), final(runner).calls()),
        tells_player(added(old(runner).calls(), final(runner).calls()), "play-pause"@),
{
    tell_player(runner, "play-pause");
}

/// Skips to the next track.
pub fn audio_next<R: Runner>(runner: &mut R)
    ensures
        extends(old(runner).calls(), final(runner).calls()),
        tells_player(added(old(runner).calls(), final(runner).calls()), "next"@),
{
    tell_player(runner, "next");
}

/// Goes back one track.
pub fn audio_previous<R: Runner>(runner: &mut R)
    ensures
        extends(old(runner).calls(), final(runner).calls()),
        goes_back(added(old(runner).calls(), final(runner).calls())),
{
    tell_player(runner, "previous");
    let ghost middle = runner.calls();
    tell_player(runner, "previous");
    proof {
        lemma_then(old(runner).calls(), middle, runner.calls());
    }
}

} // verus!
