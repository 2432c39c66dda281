use std::path::PathBuf;

use rest_client_lsp::protocol::MessageKind;
use rest_client_lsp::saving::{
    describe_attempt, save_step, SaveAction, SaveEvent, SaveState, ShowOutcome,
};
use tower_lsp::lsp_types::Url;

fn path() -> PathBuf {
    PathBuf::from("/w/a.json")
}

fn uri() -> Url {
    Url::parse("file:///w/a.json").unwrap()
}

fn showing(first: Option<ShowOutcome>) -> SaveState {
    SaveState::Showing { path: path(), uri: uri(), first }
}

fn shown(actions: &[SaveAction]) -> Vec<String> {
    actions
        .iter()
        .map(|action| match action {
            SaveAction::MakeDirectory => "make".to_string(),
            SaveAction::Write => "write".to_string(),
            SaveAction::Locate => "locate".to_string(),
            SaveAction::Show { uri, external } => format!("show {uri} {external}"),
            SaveAction::Warn(message) => {
                assert_eq!(message.kind, MessageKind::Warning);
                format!("warn {}", message.text)
            }
            SaveAction::Return(Ok(path)) => format!("saved {path}"),
            SaveAction::Return(Err(error)) => format!("failed {error}"),
        })
        .collect()
}

#[test]
fn attempts_are_described() {
    let cases = [
        (ShowOutcome::Opened, false, true, "opened(external=false)"),
        (ShowOutcome::Declined, true, false, "declined(external=true)"),
        (ShowOutcome::Failed("no".to_string()), false, false, "error(external=false): no"),
        (ShowOutcome::TimedOut, true, false, "timeout(external=true)"),
    ];
    for (outcome, external, opened, text) in cases {
        assert_eq!(describe_attempt(&outcome, external), (opened, text.to_string()));
    }
}

#[test]
fn a_response_is_written_and_shown() {
    let (state, actions) = save_step(SaveState::Placing, SaveEvent::Placed(Ok(path())));
    assert_eq!(shown(&actions), vec!["make"]);
    let (state, actions) = save_step(state, SaveEvent::DirectoryMade(Ok(())));
    assert_eq!(shown(&actions), vec!["write"]);
    let (state, actions) = save_step(state, SaveEvent::Written(Ok(())));
    assert_eq!(shown(&actions), vec!["locate"]);
    let (state, actions) = save_step(state, SaveEvent::Located(Ok(uri())));
    assert_eq!(shown(&actions), vec!["show file:///w/a.json false"]);
    let (state, actions) = save_step(state, SaveEvent::Shown(ShowOutcome::Opened));
    assert_eq!(shown(&actions), vec!["saved /w/a.json"]);
    assert!(matches!(state, SaveState::Finished));
}

#[test]
fn each_failure_ends_saving() {
    let cases = [
        (SaveState::Placing, SaveEvent::Placed(Err("e".to_string())), "failed e"),
        (
            SaveState::Preparing { path: path() },
            SaveEvent::DirectoryMade(Err("e".to_string())),
            "failed create response dir: e",
        ),
        (
            SaveState::Writing { path: path() },
            SaveEvent::Written(Err("e".to_string())),
            "failed write response: e",
        ),
        (
            SaveState::Locating { path: path() },
            SaveEvent::Located(Err("e".to_string())),
            "failed e",
        ),
    ];
    for (state, event, text) in cases {
        let (next, actions) = save_step(state, event);
        assert!(matches!(next, SaveState::Finished));
        assert_eq!(shown(&actions), vec![text]);
    }
}

#[test]
fn a_second_attempt_is_made_outside() {
    let (state, actions) = save_step(showing(None), SaveEvent::Shown(ShowOutcome::TimedOut));
    assert_eq!(shown(&actions), vec!["show file:///w/a.json true"]);
    let (state, actions) = save_step(state, SaveEvent::Shown(ShowOutcome::Opened));
    assert_eq!(shown(&actions), vec!["saved /w/a.json"]);
    assert!(matches!(state, SaveState::Finished));
}

#[test]
fn two_failed_attempts_are_reported() {
    let (state, actions) = save_step(
        showing(Some(ShowOutcome::Declined)),
        SaveEvent::Shown(ShowOutcome::Failed("gone".to_string())),
    );
    assert_eq!(
        shown(&actions),
        vec![
            "warn Response saved, but editor did not open file (uri: file:///w/a.json, try1: declined(external=false), try2: error(external=true): gone).",
            "saved /w/a.json",
        ]
    );
    assert!(matches!(state, SaveState::Finished));
}

#[test]
fn events_in_the_wrong_place_do_nothing() {
    let (state, actions) = save_step(SaveState::Placing, SaveEvent::Written(Ok(())));
    assert!(matches!(state, SaveState::Placing));
    assert!(actions.is_empty());
    let (state, actions) = save_step(SaveState::Finished, SaveEvent::Placed(Ok(path())));
    assert!(matches!(state, SaveState::Finished));
    assert!(actions.is_empty());
}
