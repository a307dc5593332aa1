//! The session machine: idle until the wake word is heard, then armed for
//! one command within a fixed window of time.
//!
//! Time is a count of milliseconds that the caller reads from a clock that
//! never runs backwards, and hands in with each recognized text.

use vstd::prelude::*;
use crate::commands::matching::{contains, find};
use crate::normalizer::text::{normalize_chars, normalized};

verus! {

/// Where the session stands.
#[derive(Debug, Clone, Copy, PartialEq, Eq, Structural)]
pub enum SessionState {
    /// Listening for the wake word only.
    Idle,
    /// The wake word was heard; the next text is a command if it comes no
    /// later than `deadline`.
    Armed { deadline: u64 },
}

/// What the caller does with a recognized text.
#[derive(Debug, Clone, Copy, PartialEq, Eq, Structural)]
pub enum Reaction {
    /// Nothing: the text was empty, or the wake word was not in it.
    Ignore,
    /// The wake word was heard: tell the user, and reset the recognizer.
    Arm,
    /// The text is a command: classify it, carry it out, reset the
    /// recognizer.
    Dispatch,
    /// The text came too late: tell the user, and reset the recognizer.
    Timeout,
}

impl Reaction {
    /// Whether the recognizer has to drop what it has heard so far: after
    /// every change of state, which is after everything but `Ignore`.
    pub open spec fn spec_resets_recognizer(self) -> bool {
        self != Reaction::Ignore
    }

    /// Tells whether the recognizer has to drop what it has heard so far.
    #[verifier::when_used_as_spec(spec_resets_recognizer)]
    pub fn resets_recognizer(self) -> (reset: bool)
        ensures
            reset == self.spec_resets_recognizer(),
    {
        match self {
            Reaction::Ignore => false,
            _ => true,
        }
    }
}

/// The end of a window of `window` milliseconds that opens at `now`, held
/// to the largest time that can be told.
pub open spec fn deadline_after(now: u64, window: u64) -> u64 {
    if now + window > u64::MAX {
        u64::MAX
    } else {
        (now + window) as u64
    }
}

/// The state after a recognized text. `empty` tells that nothing was
/// recognized, `heard` that the wake word stands in the text.
pub open spec fn next_state(
    state: SessionState,
    empty: bool,
    heard: bool,
    now: u64,
    window: u64,
) -> SessionState {
    if empty {
        state
    } else {
        match state {
            SessionState::Idle => if heard {
                SessionState::Armed { deadline: deadline_after(now, window) }
            } else {
                SessionState::Idle
            },
            SessionState::Armed { .. } => SessionState::Idle,
        }
    }
}

/// What is done with a recognized text.
pub open spec fn reaction_to(state: SessionState, empty: bool, heard: bool, now: u64) -> Reaction {
    if empty {
        Reaction::Ignore
    } else {
        match state {
            SessionState::Idle => if heard {
                Reaction::Arm
            } else {
                Reaction::Ignore
            },
            SessionState::Armed { deadline } => if now <= deadline {
                Reaction::Dispatch
            } else {
                Reaction::Timeout
            },
        }
    }
}

/// Takes one step of the machine: from a state and what was found in a
/// recognized text, to the next state and what to do with the text.
pub fn advance(state: SessionState, empty: bool, heard: bool, now: u64, window: u64) -> (out: (
    SessionState,
    Reaction,
))
    ensures
        out.0 == next_state(state, empty, heard, now, window),
        out.1 == reaction_to(state, empty, heard, now),
{
    if empty {
        return (state, Reaction::Ignore);
    }
    match state {
        SessionState::Idle => {
            if heard {
                let deadline = if now > u64::MAX - window {
                    u64::MAX
                } else {
                    now + window
                };
                (SessionState::Armed { deadline }, Reaction::Arm)
            } else {
                (SessionState::Idle, Reaction::Ignore)
            }
        },
        SessionState::Armed { deadline } => {
            if now <= deadline {
                (SessionState::Idle, Reaction::Dispatch)
            } else {
                (SessionState::Idle, Reaction::Timeout)
            }
        },
    }
}

/// Tests whether the wake word stands in a recognized text, both taken in
/// their normal form.
pub fn contains_wake(text: &str, word: &str) -> (heard: bool)
    ensures
        heard == contains(normalized(text@), normalized(word@)),
{
    let t = normalize_chars(text);
    let w = normalize_chars(word);
    find(t.as_slice(), w.as_slice())
}

/// A listening session: the wake word, the length of the command window, and
/// the state.
pub struct Session {
    wake_word: Vec<char>,
    command_window: u64,
    state: SessionState,
}

impl Session {
    /// The wake word, in its normal form.
    pub closed spec fn wake_word(&self) -> Seq<char> {
        self.wake_word@
    }

    /// The length of the command window, in milliseconds.
    pub closed spec fn command_window(&self) -> u64 {
        self.command_window
    }

    /// The state of the machine.
    pub closed spec fn spec_state(&self) -> SessionState {
        self.state
    }

    /// A session that waits for `wake_word` and then gives the user
    /// `command_window` milliseconds for a command. It starts idle.
    pub fn new(wake_word: &str, command_window: u64) -> (session: Session)
        ensures
            session.wake_word() == normalized(wake_word@),
            session.command_window() == command_window,
            session.spec_state() == SessionState::Idle,
    {
        Session {
            wake_word: normalize_chars(wake_word),
            command_window,
            state: SessionState::Idle,
        }
    }

    /// The state of the machine.
    #[verifier::when_used_as_spec(spec_state)]
    pub fn state(&self) -> (state: SessionState)
        ensures
            state == self.spec_state(),
    {
        self.state
    }

    /// Whether the session waits for a command.
    pub fn is_armed(&self) -> (armed: bool)
        ensures
            armed == (self.spec_state() is Armed),
    {
        match self.state {
            SessionState::Armed { .. } => true,
            SessionState::Idle => false,
        }
    }

    /// Takes a recognized text that was finalized at the time `now`.
    ///
    /// An empty text changes nothing. While idle, a text with the wake word
    /// arms the session until `now` plus the command window; any other text
    /// is dropped. While armed, the text is the command if `now` is not past
    /// the deadline, and is dropped with a timeout otherwise; either way the
    /// session is idle again.
    pub fn on_text(&mut self, text: &str, now: u64) -> (reaction: Reaction)
        ensures
            final(self).wake_word() == old(self).wake_word(),
            final(self).command_window() == old(self).command_window(),
            final(self).spec_state() == next_state(
                old(self).spec_state(),
                text@.len() == 0,
                contains(normalized(text@), old(self).wake_word()),
                now,
                old(self).command_window(),
            ),
            reaction == reaction_to(
                old(self).spec_state(),
                text@.len() == 0,
                contains(normalized(text@), old(self).wake_word()),
                now,
            ),
    {
        let empty = text.is_empty();
        let heard = if empty {
            false
        } else {
            match self.state {
                SessionState::Idle => {
                    let t = normalize_chars(text);
                    find(t.as_slice(), self.wake_word.as_slice())
                },
                SessionState::Armed { .. } => false,
            }
        };
        let (state, reaction) = advance(self.state, empty, heard, now, self.command_window);
        self.state = state;
        reaction
    }
}

/// A text that comes after the window has elapsed is dropped: the wake word
/// at `now` arms the session, and a text at a time past `now + window` gets
/// a timeout and leaves the session idle.
pub proof fn lemma_late_text_times_out(now: u64, window: u64, later: u64, heard: bool)
    requires
        later > now + window,
    ensures
        next_state(SessionState::Idle, false, true, now, window) is Armed,
        reaction_to(SessionState::Idle, false, true, now) == Reaction::Arm,
        reaction_to(
            next_state(SessionState::Idle, false, true, now, window),
            false,
            heard,
            later,
        ) == Reaction::Timeout,
        next_state(
            next_state(SessionState::Idle, false, true, now, window),
            false,
            heard,
            later,
            window,
        ) == SessionState::Idle,
{
}

/// A text that comes within the window is the command: the wake word at
/// `now` arms the session, and a text no later than `now + window` is
/// dispatched and leaves the session idle.
pub proof fn lemma_timely_text_is_dispatched(now: u64, window: u64, later: u64, heard: bool)
    requires
        later <= now + window,
    ensures
        reaction_to(
            next_state(SessionState::Idle, false, true, now, window),
            false,
            heard,
            later,
        ) == Reaction::Dispatch,
        next_state(
            next_state(SessionState::Idle, false, true, now, window),
            false,
            heard,
            later,
            window,
        ) == SessionState::Idle,
{
}

/// Every text heard while armed is used up: it is dispatched or timed out,
/// never ignored, and the session is idle afterwards.
pub proof fn lemma_armed_text_is_consumed(deadline: u64, heard: bool, now: u64, window: u64)
    ensures
        next_state(SessionState::Armed { deadline }, false, heard, now, window)
            == SessionState::Idle,
        reaction_to(SessionState::Armed { deadline }, false, heard, now) == Reaction::Dispatch
            || reaction_to(SessionState::Armed { deadline }, false, heard, now)
            == Reaction::Timeout,
{
}

/// The recognizer is reset exactly where the state changes or a text is
/// used up: never while the session stays as it was.
pub proof fn lemma_reset_follows_change(
    state: SessionState,
    empty: bool,
    heard: bool,
    now: u64,
    window: u64,
)
    ensures
        reaction_to(state, empty, heard, now).resets_recognizer() <==> (state is Armed && !empty)
            || next_state(state, empty, heard, now, window) != state,
{
}

/// Nothing but the wake word arms an idle session.
pub proof fn lemma_idle_stays_idle_without_wake_word(now: u64, window: u64)
    ensures
        next_state(SessionState::Idle, false, false, now, window) == SessionState::Idle,
        !reaction_to(SessionState::Idle, false, false, now).resets_recognizer(),
{
}

} // verus!
