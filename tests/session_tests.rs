use golemcli::context::{check_update, format_key, lock_dir_name, none_if_eq, CoreMemory, UpdateError};
use golemcli::negotiate::{Action, Event, NegotiationError, Negotiator, TermsChoice};
use golemcli::prompt::{answer_note, PromptGate};

fn drive(accept_any: bool, events: &[Event]) -> (Negotiator, Vec<Action>) {
    let mut n = Negotiator::new(accept_any);
    let actions = events.iter().map(|e| n.step(*e)).collect();
    (n, actions)
}

#[test]
fn ready_account_needs_no_prompt_or_wait() {
    let (_, a) = drive(true, &[Event::Begin, Event::AccountUnlocked(true), Event::TermsAccepted(true)]);
    assert_eq!(a, vec![Action::QueryUnlocked, Action::QueryTerms, Action::Finish { bypass: true }]);
}

#[test]
fn locked_account_waits_for_server() {
    let (_, a) = drive(
        false,
        &[Event::Begin, Event::AccountUnlocked(false), Event::UnlockDone, Event::TermsAccepted(true), Event::ServerReady],
    );
    assert_eq!(
        a,
        vec![Action::QueryUnlocked, Action::Unlock, Action::QueryTerms, Action::WaitForServer, Action::Finish { bypass: false }]
    );
}

#[test]
fn rejected_terms_fail() {
    let (_, a) = drive(
        false,
        &[
            Event::Begin,
            Event::AccountUnlocked(true),
            Event::TermsAccepted(false),
            Event::Chosen(TermsChoice::Show),
            Event::TermsShown,
            Event::Chosen(TermsChoice::Reject),
        ],
    );
    assert_eq!(a.last(), Some(&Action::Fail(NegotiationError::TermsRejected)));
    assert!(!a.iter().any(|x| matches!(x, Action::AcceptTerms { .. })));
}

#[test]
fn accepted_terms_accept_once_then_wait() {
    let (_, a) = drive(
        true,
        &[
            Event::Begin,
            Event::AccountUnlocked(true),
            Event::TermsAccepted(false),
            Event::Chosen(TermsChoice::Accept),
            Event::MonitorAnswer(true),
            Event::TalkbackAnswer(false),
            Event::TermsAcceptDone,
            Event::ServerReady,
        ],
    );
    assert_eq!(
        a,
        vec![
            Action::QueryUnlocked,
            Action::QueryTerms,
            Action::AskTermsChoice,
            Action::AskMonitor,
            Action::AskTalkback,
            Action::AcceptTerms { monitor: true, talkback: false },
            Action::WaitForServer,
            Action::Finish { bypass: true },
        ]
    );
}

#[test]
fn unexpected_event_fails() {
    let (_, a) = drive(false, &[Event::ServerReady]);
    assert_eq!(a, vec![Action::Fail(NegotiationError::UnexpectedEvent)]);
}

#[test]
fn gate_bypass_accepts_without_asking() {
    let mut g = PromptGate::new(false);
    assert_eq!(g.preset_answer(), None);
    assert!(!g.confirm(false));
    g.set_bypass(true);
    assert_eq!(g.preset_answer(), Some(true));
    assert!(g.confirm(false));
    let mut i = PromptGate::new(true);
    i.set_bypass(true);
    assert_eq!(i.preset_answer(), None);
    assert!(!i.confirm(false));
}

#[test]
fn notes_follow_answer() {
    assert_eq!(answer_note(true, Some("on"), Some("off")), Some("on"));
    assert_eq!(answer_note(false, Some("on"), Some("off")), Some("off"));
    assert_eq!(answer_note(false, Some("on"), None), None);
}

#[test]
fn keys_are_shortened() {
    let long = "0123456789abcdef0123456789abcdefXYZ";
    assert_eq!(format_key(long, false), "0123456789abcdef...3456789abcdefXYZ");
    assert_eq!(format_key(long, true), long);
    assert_eq!(format_key("short", false), "short");
    let exactly = "0123456789abcdef0123456789abcde";
    assert_eq!(format_key(exactly, false), exactly);
}

#[test]
fn keys_are_cut_on_bytes() {
    let key = "é".repeat(20);
    assert_eq!(key.len(), 40);
    assert_eq!(format_key(&key, false), format!("{}...{}", "é".repeat(8), "é".repeat(8)));
    let short = "é".repeat(15);
    assert_eq!(format_key(&short, false), short);
    let mixed = format!("{}{}", "a".repeat(16), "é".repeat(10));
    assert_eq!(format_key(&mixed, false), format!("{}...{}", "a".repeat(16), "é".repeat(8)));
}

#[test]
fn lock_dirs() {
    assert_eq!(lock_dir_name(true), "mainnet");
    assert_eq!(lock_dir_name(false), "rinkeby");
}

#[test]
fn none_if_equal() {
    assert_eq!(none_if_eq(3, &3), None);
    assert_eq!(none_if_eq(4, &3), Some(4));
}

#[test]
fn update_checks_ranges() {
    let pending = CoreMemory { cpu_cores: 2, memory: 2_000_000 };
    let min = CoreMemory { cpu_cores: 1, memory: 1_048_576 };
    let max = CoreMemory { cpu_cores: 8, memory: 16_000_000 };
    assert_eq!(check_update(pending, Some(9), Some(5), min, max), Err(UpdateError::CpuCores { min: 1, max: 8 }));
    assert_eq!(check_update(pending, None, Some(5), min, max), Err(UpdateError::Memory { min: 1_048_576, max: 16_000_000 }));
    assert_eq!(check_update(pending, Some(4), None, min, max), Ok(CoreMemory { cpu_cores: 4, memory: 2_000_000 }));
    assert_eq!(check_update(pending, None, None, min, max), Ok(pending));
}
