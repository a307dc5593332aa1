use aurora::session::{advance, contains_wake, Reaction, Session, SessionState};

#[test]
fn a_session_starts_idle() {
    let session = Session::new("aurora", 6000);
    assert_eq!(session.state(), SessionState::Idle);
    assert!(!session.is_armed());
}

#[test]
fn the_wake_word_arms_and_a_late_text_times_out() {
    let mut session = Session::new("aurora", 6000);
    assert_eq!(session.on_text("hey aurora", 1000), Reaction::Arm);
    assert_eq!(session.state(), SessionState::Armed { deadline: 7000 });
    assert!(session.is_armed());
    assert_eq!(session.on_text("open firefox", 7001), Reaction::Timeout);
    assert_eq!(session.state(), SessionState::Idle);
    // The command was not kept for later.
    assert_eq!(session.on_text("open firefox", 7002), Reaction::Ignore);
    assert_eq!(session.state(), SessionState::Idle);
}

#[test]
fn a_text_within_the_window_is_dispatched_once() {
    let mut session = Session::new("aurora", 6000);
    assert_eq!(session.on_text("Aurora!", 500), Reaction::Arm);
    assert_eq!(session.on_text("volume up", 6500), Reaction::Dispatch);
    assert_eq!(session.state(), SessionState::Idle);
    assert_eq!(session.on_text("volume up", 6501), Reaction::Ignore);
}

#[test]
fn the_deadline_itself_is_in_time() {
    let mut session = Session::new("aurora", 6000);
    session.on_text("aurora", 0);
    assert_eq!(session.on_text("quit", 6000), Reaction::Dispatch);
    session.on_text("aurora", 10);
    assert_eq!(session.on_text("quit", 6011), Reaction::Timeout);
}

#[test]
fn an_empty_text_changes_nothing() {
    let mut session = Session::new("aurora", 6000);
    assert_eq!(session.on_text("", 5), Reaction::Ignore);
    assert_eq!(session.state(), SessionState::Idle);
    session.on_text("aurora", 10);
    assert_eq!(session.on_text("", 20), Reaction::Ignore);
    assert_eq!(session.state(), SessionState::Armed { deadline: 6010 });
    assert_eq!(session.on_text("", 99_999), Reaction::Ignore);
    assert_eq!(session.state(), SessionState::Armed { deadline: 6010 });
    assert_eq!(session.on_text("stop", 6010), Reaction::Dispatch);
}

#[test]
fn a_text_without_the_wake_word_is_dropped() {
    let mut session = Session::new("aurora", 6000);
    for text in ["open firefox", "auror", "a u r o r a", " ", "!!!"] {
        assert_eq!(session.on_text(text, 1), Reaction::Ignore);
        assert_eq!(session.state(), SessionState::Idle);
    }
}

#[test]
fn the_wake_word_while_armed_is_taken_as_the_command() {
    let mut session = Session::new("aurora", 6000);
    session.on_text("aurora", 0);
    assert_eq!(session.on_text("aurora", 1), Reaction::Dispatch);
    assert_eq!(session.state(), SessionState::Idle);
}

#[test]
fn the_deadline_stops_at_the_end_of_time() {
    let mut session = Session::new("aurora", 6000);
    assert_eq!(session.on_text("aurora", u64::MAX - 10), Reaction::Arm);
    assert_eq!(session.state(), SessionState::Armed { deadline: u64::MAX });
    assert_eq!(session.on_text("quit", u64::MAX), Reaction::Dispatch);
    let mut session = Session::new("aurora", u64::MAX);
    session.on_text("aurora", 1);
    assert_eq!(session.state(), SessionState::Armed { deadline: u64::MAX });
}

#[test]
fn a_window_of_no_length_admits_the_same_instant_only() {
    let mut session = Session::new("aurora", 0);
    session.on_text("aurora", 7);
    assert_eq!(session.on_text("quit", 7), Reaction::Dispatch);
    session.on_text("aurora", 7);
    assert_eq!(session.on_text("quit", 8), Reaction::Timeout);
}

#[test]
fn the_wake_word_is_found_in_the_normal_form() {
    assert!(contains_wake("hey aurora", "aurora"));
    assert!(contains_wake("Hey, AURORA!", "aurora"));
    assert!(contains_wake("heyaurorahey", "Aurora"));
    assert!(contains_wake("Привіт, Аврора", "аврора"));
    assert!(!contains_wake("hey auror", "aurora"));
    assert!(!contains_wake("au-rora", "aurora"));
    assert!(contains_wake("hey au  rora", "au-rora"));
    assert!(contains_wake("anything", ""));
    assert!(contains_wake("", "!"));
    assert!(!contains_wake("", "a"));
}

#[test]
fn the_ukrainian_wake_word_arms() {
    let mut session = Session::new("аврора", 6000);
    assert_eq!(session.on_text("гей аврора", 0), Reaction::Arm);
    assert_eq!(session.on_text("відкрий термінал", 100), Reaction::Dispatch);
}

#[test]
fn one_step_of_the_machine() {
    let idle = SessionState::Idle;
    let armed = SessionState::Armed { deadline: 50 };
    assert_eq!(advance(idle, true, true, 0, 10), (idle, Reaction::Ignore));
    assert_eq!(advance(idle, false, false, 0, 10), (idle, Reaction::Ignore));
    assert_eq!(
        advance(idle, false, true, 5, 10),
        (SessionState::Armed { deadline: 15 }, Reaction::Arm)
    );
    assert_eq!(advance(armed, true, false, 60, 10), (armed, Reaction::Ignore));
    assert_eq!(advance(armed, false, false, 50, 10), (idle, Reaction::Dispatch));
    assert_eq!(advance(armed, false, true, 51, 10), (idle, Reaction::Timeout));
}

#[test]
fn the_recognizer_is_reset_after_everything_but_an_ignored_text() {
    assert!(!Reaction::Ignore.resets_recognizer());
    assert!(Reaction::Arm.resets_recognizer());
    assert!(Reaction::Dispatch.resets_recognizer());
    assert!(Reaction::Timeout.resets_recognizer());
}
