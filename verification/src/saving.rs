//! Saving a response next to its request file and showing it in the editor, step by step.
//!
//! The program performs the actions that a step asks for, in order, and hands the next
//! event to the next step.

use std::path::PathBuf;
use tower_lsp::lsp_types::Url;
use vstd::prelude::*;

use crate::protocol::{Message, MessageKind};
use crate::uris::{copy_url, path_shown, show_path, text_of_url, url_text};

verus! {

/// What came of asking the editor to show a document.
#[derive(Debug, PartialEq, Eq)]
pub enum ShowOutcome {
    Opened,
    Declined,
    Failed(String),
    TimedOut,
}

/// The word for `true` or `false`.
pub open spec fn bool_text(value: bool) -> Seq<char> {
    if value {
        "true"@
    } else {
        "false"@
    }
}

/// What is reported of an attempt to show a document.
pub open spec fn attempt_text(outcome: ShowOutcome, external: bool) -> Seq<char> {
    match outcome {
        ShowOutcome::Opened => "opened(external="@ + bool_text(external) + ")"@,
        ShowOutcome::Declined => "declined(external="@ + bool_text(external) + ")"@,
        ShowOutcome::Failed(error) => "error(external="@ + bool_text(external) + "): "@ + error@,
        ShowOutcome::TimedOut => "timeout(external="@ + bool_text(external) + ")"@,
    }
}

/// Whether an attempt to show a document succeeded, and what is reported of it.
pub fn describe_attempt(outcome: &ShowOutcome, external: bool) -> (r: (bool, String))
    ensures
        r.0 == (*outcome is Opened),
        r.1@ == attempt_text(*outcome, external),
{
    let flag: &'static str = if external {
        "true"
    } else {
        "false"
    };
    let mut text: String = match outcome {
        ShowOutcome::Opened => "opened(external=".to_owned(),
        ShowOutcome::Declined => "declined(external=".to_owned(),
        ShowOutcome::Failed(_) => "error(external=".to_owned(),
        ShowOutcome::TimedOut => "timeout(external=".to_owned(),
    };
    text.append(flag);
    match outcome {
        ShowOutcome::Opened => {
            text.append(")");
            (true, text)
        },
        ShowOutcome::Declined => {
            text.append(")");
            (false, text)
        },
        ShowOutcome::Failed(error) => {
            text.append("): ");
            text.append(error.as_str());
            (false, text)
        },
        ShowOutcome::TimedOut => {
            text.append(")");
            (false, text)
        },
    }
}

/// How far saving has come.
pub enum SaveState {
    /// It is not known yet where the response goes.
    Placing,
    /// The directory of the file is being made.
    Preparing { path: PathBuf },
    /// The file is being written.
    Writing { path: PathBuf },
    /// The address of the file is being looked for.
    Locating { path: PathBuf },
    /// The editor is asked to show the file, for the second time where `first` is there.
    Showing { path: PathBuf, uri: Url, first: Option<ShowOutcome> },
    Finished,
}

/// What has happened.
pub enum SaveEvent {
    /// The file to which the response goes, or why it goes nowhere.
    Placed(Result<PathBuf, String>),
    DirectoryMade(Result<(), String>),
    Written(Result<(), String>),
    /// The address of the file, or why it has none.
    Located(Result<Url, String>),
    Shown(ShowOutcome),
}

/// What to do.
pub enum SaveAction {
    /// Make the directory of the file.
    MakeDirectory,
    /// Write the file.
    Write,
    /// Find the address of the file.
    Locate,
    /// Ask the editor to show the file, inside the editor or outside of it.
    Show { uri: Url, external: bool },
    /// Tell the client.
    Warn(Message),
    /// Saving has come to an end: with the path of the file, or with an error.
    Return(Result<String, String>),
}

/// An action with its texts.
pub enum SaveAct {
    MakeDirectory,
    Write,
    Locate,
    Show { uri: Url, external: bool },
    Warn { kind: MessageKind, text: Seq<char> },
    Saved(Seq<char>),
    NotSaved(Seq<char>),
}

impl View for SaveAction {
    type V = SaveAct;

    open spec fn view(&self) -> SaveAct {
        match self {
            SaveAction::MakeDirectory => SaveAct::MakeDirectory,
            SaveAction::Write => SaveAct::Write,
            SaveAction::Locate => SaveAct::Locate,
            SaveAction::Show { uri, external } => SaveAct::Show { uri: *uri, external: *external },
            SaveAction::Warn(message) => SaveAct::Warn { kind: message.kind, text: message.text@ },
            SaveAction::Return(Ok(path)) => SaveAct::Saved(path@),
            SaveAction::Return(Err(error)) => SaveAct::NotSaved(error@),
        }
    }
}

/// The actions with their texts.
pub open spec fn save_acts(actions: Seq<SaveAction>) -> Seq<SaveAct> {
    actions.map_values(|action: SaveAction| action@)
}

/// The action ends saving.
pub open spec fn is_return(act: SaveAct) -> bool {
    act is Saved || act is NotSaved
}

/// The warning that a response file was not shown.
pub open spec fn not_shown_text(uri: Url, first: ShowOutcome, second: ShowOutcome) -> Seq<char> {
    "Response saved, but editor did not open file (uri: "@ + url_text(uri) + ", try1: "@
        + attempt_text(first, false) + ", try2: "@ + attempt_text(second, true) + ")."@
}

/// The actions that an event asks for.
pub open spec fn save_step_acts(state: SaveState, event: SaveEvent) -> Seq<SaveAct> {
    match (state, event) {
        (SaveState::Placing, SaveEvent::Placed(result)) => match result {
            Ok(path) => seq![SaveAct::MakeDirectory],
            Err(error) => seq![SaveAct::NotSaved(error@)],
        },
        (SaveState::Preparing { path }, SaveEvent::DirectoryMade(result)) => match result {
            Ok(_) => seq![SaveAct::Write],
            Err(error) => seq![SaveAct::NotSaved("create response dir: "@ + error@)],
        },
        (SaveState::Writing { path }, SaveEvent::Written(result)) => match result {
            Ok(_) => seq![SaveAct::Locate],
            Err(error) => seq![SaveAct::NotSaved("write response: "@ + error@)],
        },
        (SaveState::Locating { path }, SaveEvent::Located(result)) => match result {
            Ok(uri) => seq![SaveAct::Show { uri, external: false }],
            Err(error) => seq![SaveAct::NotSaved(error@)],
        },
        (
            SaveState::Showing { path, uri, first },
            SaveEvent::Shown(outcome),
        ) => if outcome is Opened {
            seq![SaveAct::Saved(path_shown(path))]
        } else {
            match first {
                None => seq![SaveAct::Show { uri, external: true }],
                Some(one) => seq![
                    SaveAct::Warn {
                        kind: MessageKind::Warning,
                        text: not_shown_text(uri, one, outcome),
                    },
                    SaveAct::Saved(path_shown(path)),
                ],
            }
        },
        _ => seq![],
    }
}

/// How far saving has come after an event.
pub open spec fn save_step_state(state: SaveState, event: SaveEvent) -> SaveState {
    match (state, event) {
        (SaveState::Placing, SaveEvent::Placed(result)) => match result {
            Ok(path) => SaveState::Preparing { path },
            Err(_) => SaveState::Finished,
        },
        (SaveState::Preparing { path }, SaveEvent::DirectoryMade(result)) => if result is Ok {
            SaveState::Writing { path }
        } else {
            SaveState::Finished
        },
        (SaveState::Writing { path }, SaveEvent::Written(result)) => if result is Ok {
            SaveState::Locating { path }
        } else {
            SaveState::Finished
        },
        (SaveState::Locating { path }, SaveEvent::Located(result)) => match result {
            Ok(uri) => SaveState::Showing { path, uri, first: None },
            Err(_) => SaveState::Finished,
        },
        (SaveState::Showing { path, uri, first }, SaveEvent::Shown(outcome)) => if outcome is Opened
            || first is Some {
            SaveState::Finished
        } else {
            SaveState::Showing { path, uri, first: Some(outcome) }
        },
        _ => state,
    }
}

/// Saving comes to an end with its last action and not before.
pub proof fn lemma_return_ends_saving(state: SaveState, event: SaveEvent)
    requires
        !(state is Finished),
    ensures
        save_step_state(state, event) is Finished <==> exists|k: int|
            0 <= k < save_step_acts(state, event).len() && is_return(
                #[trigger] save_step_acts(state, event)[k],
            ),
        save_step_state(state, event) is Finished ==> save_step_acts(state, event).len() > 0
            && is_return(save_step_acts(state, event).last()),
{
    let done = save_step_acts(state, event);
    if save_step_state(state, event) is Finished {
        assert(is_return(done[done.len() - 1]));
    }
}

/// A response is shown only after it was written, and its address found.
pub proof fn lemma_shown_only_when_written(state: SaveState, event: SaveEvent)
    ensures
        save_step_state(state, event) is Showing ==> state is Showing || (state is Locating
            && event matches SaveEvent::Located(Ok(_))),
        save_step_state(state, event) is Locating ==> state is Locating || (state is Writing
            && event matches SaveEvent::Written(Ok(_))),
        save_step_state(state, event) is Writing ==> state is Writing || (state is Preparing
            && event matches SaveEvent::DirectoryMade(Ok(_))),
{
}

/// A response that was written and has an address counts as saved, whatever comes of
/// showing it.
pub proof fn lemma_showing_cannot_fail(state: SaveState, event: SaveEvent)
    requires
        state is Showing,
        save_step_state(state, event) is Finished,
    ensures
        save_step_acts(state, event).last() == SaveAct::Saved(path_shown(state->Showing_path)),
{
}

/// The editor is asked at most twice: inside of it first, and where that fails outside of
/// it. The client is warned if and only if both attempts fail.
pub proof fn lemma_asked_at_most_twice(
    path: PathBuf,
    uri: Url,
    first: ShowOutcome,
    second: ShowOutcome,
)
    ensures
        ({
            let start = SaveState::Locating { path };
            let located = SaveEvent::Located(Ok(uri));
            let asked = save_step_state(start, located);
            let again = save_step_state(asked, SaveEvent::Shown(first));
            &&& save_step_acts(start, located) == seq![SaveAct::Show { uri, external: false }]
            &&& first is Opened ==> again is Finished
            &&& !(first is Opened) ==> {
                &&& save_step_acts(asked, SaveEvent::Shown(first)) == seq![
                    SaveAct::Show { uri, external: true },
                ]
                &&& save_step_state(again, SaveEvent::Shown(second)) is Finished
                &&& save_step_acts(again, SaveEvent::Shown(second))[0] is Warn <==> !(
                second is Opened)
            }
        }),
{
}

/// Each failure before a response is written and located ends saving, with its cause and with
/// what was tried; nothing is shown then.
pub proof fn lemma_failures_end_saving(path: PathBuf, error: String)
    ensures
        save_step_acts(SaveState::Placing, SaveEvent::Placed(Err(error))) == seq![
            SaveAct::NotSaved(error@),
        ],
        save_step_acts(SaveState::Preparing { path }, SaveEvent::DirectoryMade(Err(error)))
            == seq![SaveAct::NotSaved("create response dir: "@ + error@)],
        save_step_acts(SaveState::Writing { path }, SaveEvent::Written(Err(error))) == seq![
            SaveAct::NotSaved("write response: "@ + error@),
        ],
        save_step_acts(SaveState::Locating { path }, SaveEvent::Located(Err(error))) == seq![
            SaveAct::NotSaved(error@),
        ],
        save_step_state(SaveState::Placing, SaveEvent::Placed(Err(error))) is Finished,
        save_step_state(SaveState::Preparing { path }, SaveEvent::DirectoryMade(Err(error)))
            is Finished,
        save_step_state(SaveState::Writing { path }, SaveEvent::Written(Err(error))) is Finished,
        save_step_state(SaveState::Locating { path }, SaveEvent::Located(Err(error))) is Finished,
{
}

/// Where everything succeeds, the directory is made, the file written, its address found and
/// shown, all for the path that was given first, and that path is reported.
pub proof fn lemma_saving_goes_through(path: PathBuf, uri: Url)
    ensures
        ({
            let placed = SaveEvent::Placed(Ok(path));
            let preparing = save_step_state(SaveState::Placing, placed);
            let made = SaveEvent::DirectoryMade(Ok(()));
            let writing = save_step_state(preparing, made);
            let written = SaveEvent::Written(Ok(()));
            let locating = save_step_state(writing, written);
            let located = SaveEvent::Located(Ok(uri));
            let showing = save_step_state(locating, located);
            let shown = SaveEvent::Shown(ShowOutcome::Opened);
            &&& save_step_acts(SaveState::Placing, placed) == seq![SaveAct::MakeDirectory]
            &&& save_step_acts(preparing, made) == seq![SaveAct::Write]
            &&& save_step_acts(writing, written) == seq![SaveAct::Locate]
            &&& save_step_acts(locating, located) == seq![SaveAct::Show { uri, external: false }]
            &&& save_step_acts(showing, shown) == seq![SaveAct::Saved(path_shown(path))]
            &&& save_step_state(showing, shown) is Finished
        }),
{
}

/// An event that does not belong to how far saving has come changes nothing.
pub proof fn lemma_save_events_out_of_turn(state: SaveState, event: SaveEvent)
    requires
        state is Placing ==> !(event is Placed),
        state is Preparing ==> !(event is DirectoryMade),
        state is Writing ==> !(event is Written),
        state is Locating ==> !(event is Located),
        state is Showing ==> !(event is Shown),
    ensures
        save_step_acts(state, event).len() == 0,
        save_step_state(state, event) == state,
{
}

/// The warning names the address, and what came of both attempts; a failed attempt is reported
/// with its cause.
pub proof fn lemma_warning_names_both_attempts(
    path: PathBuf,
    uri: Url,
    first: ShowOutcome,
    second: ShowOutcome,
    error: String,
    external: bool,
)
    ensures
        !(second is Opened) ==> save_step_acts(
            SaveState::Showing { path, uri, first: Some(first) },
            SaveEvent::Shown(second),
        ) == seq![
            SaveAct::Warn {
                kind: MessageKind::Warning,
                text: "Response saved, but editor did not open file (uri: "@ + url_text(uri)
                    + ", try1: "@ + attempt_text(first, false) + ", try2: "@ + attempt_text(
                    second,
                    true,
                ) + ")."@,
            },
            SaveAct::Saved(path_shown(path)),
        ],
        error@.is_suffix_of(attempt_text(ShowOutcome::Failed(error), external)),
        attempt_text(ShowOutcome::Failed(error), true) == "error(external=true): "@ + error@,
        attempt_text(ShowOutcome::Failed(error), false) == "error(external=false): "@ + error@,
        attempt_text(ShowOutcome::Declined, true) == "declined(external=true)"@,
        attempt_text(ShowOutcome::Declined, false) == "declined(external=false)"@,
        attempt_text(ShowOutcome::TimedOut, true) == "timeout(external=true)"@,
        attempt_text(ShowOutcome::TimedOut, false) == "timeout(external=false)"@,
{
    reveal_strlit("true");
    reveal_strlit("false");
    reveal_strlit(")");
    reveal_strlit("): ");
    reveal_strlit("error(external=");
    reveal_strlit("error(external=true): ");
    reveal_strlit("error(external=false): ");
    reveal_strlit("declined(external=");
    reveal_strlit("declined(external=true)");
    reveal_strlit("declined(external=false)");
    reveal_strlit("timeout(external=");
    reveal_strlit("timeout(external=true)");
    reveal_strlit("timeout(external=false)");
    let failed = attempt_text(ShowOutcome::Failed(error), external);
    assert(failed.subrange(failed.len() - error@.len(), failed.len() as int) =~= error@);
    assert(attempt_text(ShowOutcome::Failed(error), true) =~= "error(external=true): "@ + error@);
    assert(attempt_text(ShowOutcome::Failed(error), false) =~= "error(external=false): "@ + error@);
    assert(attempt_text(ShowOutcome::Declined, true) =~= "declined(external=true)"@);
    assert(attempt_text(ShowOutcome::Declined, false) =~= "declined(external=false)"@);
    assert(attempt_text(ShowOutcome::TimedOut, true) =~= "timeout(external=true)"@);
    assert(attempt_text(ShowOutcome::TimedOut, false) =~= "timeout(external=false)"@);
}

/// The error with what was tried in front.
fn error_about(attempt: &str, error: &str) -> (r: String)
    ensures
        r@ == attempt@ + error@,
{
    let mut text: String = attempt.to_owned();
    text.append(error);
    text
}

/// One action.
fn one(action: SaveAction) -> (r: Vec<SaveAction>)
    ensures
        save_acts(r@) == seq![action@],
{
    let ghost act = action@;
    let mut actions: Vec<SaveAction> = Vec::new();
    actions.push(action);
    assert(save_acts(actions@) =~= seq![act]);
    actions
}

/// The warning that a response file was not shown.
fn not_shown_message(uri: &Url, first: &ShowOutcome, second: &ShowOutcome) -> (r: Message)
    ensures
        r.kind == MessageKind::Warning,
        r.text@ == not_shown_text(*uri, *first, *second),
{
    let mut text: String = "Response saved, but editor did not open file (uri: ".to_owned();
    text.append(text_of_url(uri));
    text.append(", try1: ");
    text.append(describe_attempt(first, false).1.as_str());
    text.append(", try2: ");
    text.append(describe_attempt(second, true).1.as_str());
    text.append(").");
    Message { kind: MessageKind::Warning, text }
}

/// The actions that an event asks for, and how far saving has come after it: the directory
/// of the file is made, the file is written and its address found; then the editor is asked
/// to show it, inside of it first and outside of it where that fails.
pub fn save_step(state: SaveState, event: SaveEvent) -> (r: (SaveState, Vec<SaveAction>))
    ensures
        r.0 == save_step_state(state, event),
        save_acts(r.1@) == save_step_acts(state, event),
{
    match (state, event) {
        (SaveState::Placing, SaveEvent::Placed(result)) => match result {
            Ok(path) => (SaveState::Preparing { path }, one(SaveAction::MakeDirectory)),
            Err(error) => (SaveState::Finished, one(SaveAction::Return(Err(error)))),
        },
        (SaveState::Preparing { path }, SaveEvent::DirectoryMade(result)) => match result {
            Ok(_) => (SaveState::Writing { path }, one(SaveAction::Write)),
            Err(error) => {
                let text = error_about("create response dir: ", error.as_str());
                (SaveState::Finished, one(SaveAction::Return(Err(text))))
            },
        },
        (SaveState::Writing { path }, SaveEvent::Written(result)) => match result {
            Ok(_) => (SaveState::Locating { path }, one(SaveAction::Locate)),
            Err(error) => {
                let text = error_about("write response: ", error.as_str());
                (SaveState::Finished, one(SaveAction::Return(Err(text))))
            },
        },
        (SaveState::Locating { path }, SaveEvent::Located(result)) => match result {
            Ok(uri) => {
                let shown = copy_url(&uri);
                (
                    SaveState::Showing { path, uri, first: None },
                    one(SaveAction::Show { uri: shown, external: false }),
                )
            },
            Err(error) => (SaveState::Finished, one(SaveAction::Return(Err(error)))),
        },
        (SaveState::Showing { path, uri, first }, SaveEvent::Shown(outcome)) => {
            let external = first.is_some();
            if describe_attempt(&outcome, external).0 {
                let saved = show_path(&path);
                return (SaveState::Finished, one(SaveAction::Return(Ok(saved))));
            }
            match first {
                None => {
                    let shown = copy_url(&uri);
                    (
                        SaveState::Showing { path, uri, first: Some(outcome) },
                        one(SaveAction::Show { uri: shown, external: true }),
                    )
                },
                Some(earlier) => {
                    let message = not_shown_message(&uri, &earlier, &outcome);
                    let saved = show_path(&path);
                    let ghost shown = saved@;
                    let mut actions = one(SaveAction::Warn(message));
                    let ghost warning = actions@;
                    actions.push(SaveAction::Return(Ok(saved)));
                    assert(save_acts(actions@) =~= save_acts(warning).push(SaveAct::Saved(shown)));
                    (SaveState::Finished, actions)
                },
            }
        },
        (state, _) => {
            let actions: Vec<SaveAction> = Vec::new();
            assert(save_acts(actions@) =~= Seq::<SaveAct>::empty());
            (state, actions)
        },
    }
}

} // verus!
