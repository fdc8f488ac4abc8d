//! Adding a dependency, step by step.
//!
//! Adding a dependency needs the file system and the installer, which this
//! library does not touch. It decides instead: a state says which action
//! is asked of the caller, and the caller's report of how the action went,
//! an event, leads to the next state. The manifest is loaded before the
//! installer is run, so a missing manifest stops the work before anything
//! is installed or written.

use vstd::prelude::*;
use vstd::utf8::{decode_utf8, valid_utf8};
use crate::error::ManifestError;
use crate::lines::{
    decode_text, join_lines, lemma_lines_of_shape, lemma_lines_of_text_of,
    lemma_text_of_is_injective, lines_of, newline_free, split_lines, text_of,
};
use crate::reconcile::{matching, reconcile, reconciled};
use crate::reconcile_laws::{
    all_alike, is_compact, lemma_reconciled_is_blank_free, lemma_reconciled_lines_are_given,
    lemma_reconciled_of_empty_line, lemma_reconciled_twice,
};

verus! {

/// What the caller is asked to do next.
#[derive(Debug, PartialEq, Eq)]
pub enum AddAction {
    /// Find out whether the manifest exists.
    Probe,
    /// Create the manifest, empty.
    Create,
    /// Open the manifest for reading and writing and read all of its text.
    Load,
    /// Have the installer install the package `name`.
    Install { name: String },
    /// Have the installer list what is installed, with versions.
    Snapshot,
    /// Replace the whole content of the manifest by `text`.
    Save { text: String },
    /// Nothing is left to do; `outcome` is the result of the operation.
    Stop { outcome: Result<(), ManifestError> },
}

/// How the action that was asked went.
#[derive(Debug, PartialEq, Eq)]
pub enum AddEvent {
    /// The answer to `Probe`.
    Probed { exists: bool },
    /// `Create` was done.
    Created,
    /// `Load` was done, and `text` is the manifest's content.
    Loaded { text: String },
    /// The installer was run to install the package. How it ended is not
    /// looked at.
    Installed,
    /// The installer was run to list the packages and printed `output`.
    Listed { output: Vec<u8> },
    /// `Save` was done.
    Saved,
    /// The manifest does not exist.
    Missing,
    /// The file system failed in another way.
    IoFailed,
    /// The installer could not be started.
    SpawnFailed,
}

/// Where the operation stands.
#[derive(Debug, PartialEq, Eq)]
pub enum AddState {
    /// Waiting to learn whether the manifest exists.
    Probing { name: String },
    /// Waiting for the empty manifest to be created.
    Creating { name: String },
    /// Waiting for the manifest's text.
    Loading { name: String },
    /// Waiting for the installer to install; `prior` is the manifest as
    /// it was loaded.
    Installing { name: String, prior: Vec<String> },
    /// Waiting for the installer's list.
    Listing { name: String, prior: Vec<String> },
    /// Waiting for `text` to be written.
    Saving { text: String },
    /// Over, with this result.
    Finished { outcome: Result<(), ManifestError> },
}

/// An action, its strings as sequences of characters.
pub enum AddActionView {
    Probe,
    Create,
    Load,
    Install { name: Seq<char> },
    Snapshot,
    Save { text: Seq<char> },
    Stop { outcome: Result<(), ManifestError> },
}

/// An event, its text as a sequence of characters and its bytes as a
/// sequence of bytes.
pub enum AddEventView {
    Probed { exists: bool },
    Created,
    Loaded { text: Seq<char> },
    Installed,
    Listed { output: Seq<u8> },
    Saved,
    Missing,
    IoFailed,
    SpawnFailed,
}

/// A state, its strings as sequences of characters.
pub enum AddStateView {
    Probing { name: Seq<char> },
    Creating { name: Seq<char> },
    Loading { name: Seq<char> },
    Installing { name: Seq<char>, prior: Seq<Seq<char>> },
    Listing { name: Seq<char>, prior: Seq<Seq<char>> },
    Saving { text: Seq<char> },
    Finished { outcome: Result<(), ManifestError> },
}

impl View for AddAction {
    type V = AddActionView;

    open spec fn view(&self) -> AddActionView {
        match *self {
            AddAction::Probe => AddActionView::Probe,
            AddAction::Create => AddActionView::Create,
            AddAction::Load => AddActionView::Load,
            AddAction::Install { name } => AddActionView::Install { name: name@ },
            AddAction::Snapshot => AddActionView::Snapshot,
            AddAction::Save { text } => AddActionView::Save { text: text@ },
            AddAction::Stop { outcome } => AddActionView::Stop { outcome },
        }
    }
}

impl View for AddEvent {
    type V = AddEventView;

    open spec fn view(&self) -> AddEventView {
        match *self {
            AddEvent::Probed { exists } => AddEventView::Probed { exists },
            AddEvent::Created => AddEventView::Created,
            AddEvent::Loaded { text } => AddEventView::Loaded { text: text@ },
            AddEvent::Installed => AddEventView::Installed,
            AddEvent::Listed { output } => AddEventView::Listed { output: output@ },
            AddEvent::Saved => AddEventView::Saved,
            AddEvent::Missing => AddEventView::Missing,
            AddEvent::IoFailed => AddEventView::IoFailed,
            AddEvent::SpawnFailed => AddEventView::SpawnFailed,
        }
    }
}

impl View for AddState {
    type V = AddStateView;

    open spec fn view(&self) -> AddStateView {
        match *self {
            AddState::Probing { name } => AddStateView::Probing { name: name@ },
            AddState::Creating { name } => AddStateView::Creating { name: name@ },
            AddState::Loading { name } => AddStateView::Loading { name: name@ },
            AddState::Installing { name, prior } => AddStateView::Installing {
                name: name@,
                prior: prior.deep_view(),
            },
            AddState::Listing { name, prior } => AddStateView::Listing {
                name: name@,
                prior: prior.deep_view(),
            },
            AddState::Saving { text } => AddStateView::Saving { text: text@ },
            AddState::Finished { outcome } => AddStateView::Finished { outcome },
        }
    }
}

/// The state in which adding `name` begins. The manifest is probed only
/// where its creation is asked for; otherwise it is loaded at once, and
/// the load fails if it is not there.
pub open spec fn initial_state(name: Seq<char>, create: bool) -> AddStateView {
    if create {
        AddStateView::Probing { name }
    } else {
        AddStateView::Loading { name }
    }
}

/// The action that a state asks for.
pub open spec fn pending_action(state: AddStateView) -> AddActionView {
    match state {
        AddStateView::Probing { .. } => AddActionView::Probe,
        AddStateView::Creating { .. } => AddActionView::Create,
        AddStateView::Loading { .. } => AddActionView::Load,
        AddStateView::Installing { name, .. } => AddActionView::Install { name },
        AddStateView::Listing { .. } => AddActionView::Snapshot,
        AddStateView::Saving { text } => AddActionView::Save { text },
        AddStateView::Finished { outcome } => AddActionView::Stop { outcome },
    }
}

/// The text to save once the installer has listed `output`, or the
/// failure if `output` is no text.
pub open spec fn after_listing(
    name: Seq<char>,
    prior: Seq<Seq<char>>,
    output: Seq<u8>,
) -> AddStateView {
    if valid_utf8(output) {
        AddStateView::Saving {
            text: text_of(reconciled(prior, lines_of(decode_utf8(output)), name)),
        }
    } else {
        AddStateView::Finished { outcome: Err(ManifestError::EncodingFailure) }
    }
}

/// The state that follows `state` on `event`. An event that is no answer
/// to the action that `state` asks for leaves the state as it is.
pub open spec fn next_state(state: AddStateView, event: AddEventView) -> AddStateView {
    match (state, event) {
        (AddStateView::Probing { name }, AddEventView::Probed { exists }) => if exists {
            AddStateView::Loading { name }
        } else {
            AddStateView::Creating { name }
        },
        (AddStateView::Creating { name }, AddEventView::Created) => AddStateView::Loading { name },
        (AddStateView::Creating { .. }, AddEventView::Missing) => AddStateView::Finished {
            outcome: Err(ManifestError::IoFailure),
        },
        (AddStateView::Creating { .. }, AddEventView::IoFailed) => AddStateView::Finished {
            outcome: Err(ManifestError::IoFailure),
        },
        (AddStateView::Loading { name }, AddEventView::Loaded { text }) => AddStateView::Installing {
            name,
            prior: lines_of(text),
        },
        (AddStateView::Loading { .. }, AddEventView::Missing) => AddStateView::Finished {
            outcome: Err(ManifestError::NotFound),
        },
        (AddStateView::Loading { .. }, AddEventView::IoFailed) => AddStateView::Finished {
            outcome: Err(ManifestError::IoFailure),
        },
        (AddStateView::Installing { name, prior }, AddEventView::Installed) => AddStateView::Listing {
            name,
            prior,
        },
        (AddStateView::Installing { .. }, AddEventView::SpawnFailed) => AddStateView::Finished {
            outcome: Err(ManifestError::InstallerSpawnFailure),
        },
        (AddStateView::Listing { name, prior }, AddEventView::Listed { output }) => after_listing(
            name,
            prior,
            output,
        ),
        (AddStateView::Listing { .. }, AddEventView::SpawnFailed) => AddStateView::Finished {
            outcome: Err(ManifestError::InstallerSpawnFailure),
        },
        (AddStateView::Saving { .. }, AddEventView::Saved) => AddStateView::Finished {
            outcome: Ok(()),
        },
        (AddStateView::Saving { .. }, AddEventView::Missing) => AddStateView::Finished {
            outcome: Err(ManifestError::IoFailure),
        },
        (AddStateView::Saving { .. }, AddEventView::IoFailed) => AddStateView::Finished {
            outcome: Err(ManifestError::IoFailure),
        },
        (state, _) => state,
    }
}

impl AddState {
    /// The action that this state asks for.
    pub fn action(&self) -> (action: AddAction)
        ensures
            action@ == pending_action(self@),
    {
        match self {
            AddState::Probing { .. } => AddAction::Probe,
            AddState::Creating { .. } => AddAction::Create,
            AddState::Loading { .. } => AddAction::Load,
            AddState::Installing { name, .. } => AddAction::Install { name: name.clone() },
            AddState::Listing { .. } => AddAction::Snapshot,
            AddState::Saving { text } => AddAction::Save { text: text.clone() },
            AddState::Finished { outcome } => AddAction::Stop { outcome: *outcome },
        }
    }

    /// Takes the report of how the asked action went, and gives the state
    /// that follows and the action that it asks for.
    pub fn step(self, event: AddEvent) -> (next: (AddState, AddAction))
        ensures
            next.0@ == next_state(self@, event@),
            next.1@ == pending_action(next.0@),
    {
        let state = match (self, event) {
            (AddState::Probing { name }, AddEvent::Probed { exists }) => if exists {
                AddState::Loading { name }
            } else {
                AddState::Creating { name }
            },
            (AddState::Creating { name }, AddEvent::Created) => AddState::Loading { name },
            (AddState::Creating { .. }, AddEvent::Missing) => AddState::Finished {
                outcome: Err(ManifestError::IoFailure),
            },
            (AddState::Creating { .. }, AddEvent::IoFailed) => AddState::Finished {
                outcome: Err(ManifestError::IoFailure),
            },
            (AddState::Loading { name }, AddEvent::Loaded { text }) => AddState::Installing {
                name,
                prior: split_lines(text.as_str()),
            },
            (AddState::Loading { .. }, AddEvent::Missing) => AddState::Finished {
                outcome: Err(ManifestError::NotFound),
            },
            (AddState::Loading { .. }, AddEvent::IoFailed) => AddState::Finished {
                outcome: Err(ManifestError::IoFailure),
            },
            (AddState::Installing { name, prior }, AddEvent::Installed) => AddState::Listing {
                name,
                prior,
            },
            (AddState::Installing { .. }, AddEvent::SpawnFailed) => AddState::Finished {
                outcome: Err(ManifestError::InstallerSpawnFailure),
            },
            (AddState::Listing { name, prior }, AddEvent::Listed { output }) => {
                match decode_text(output) {
                    Some(listing) => {
                        let snapshot = split_lines(listing.as_str());
                        let manifest = reconcile(prior, snapshot, name.as_str());
                        AddState::Saving { text: join_lines(&manifest) }
                    },
                    None => AddState::Finished { outcome: Err(ManifestError::EncodingFailure) },
                }
            },
            (AddState::Listing { .. }, AddEvent::SpawnFailed) => AddState::Finished {
                outcome: Err(ManifestError::InstallerSpawnFailure),
            },
            (AddState::Saving { .. }, AddEvent::Saved) => AddState::Finished { outcome: Ok(()) },
            (AddState::Saving { .. }, AddEvent::Missing) => AddState::Finished {
                outcome: Err(ManifestError::IoFailure),
            },
            (AddState::Saving { .. }, AddEvent::IoFailed) => AddState::Finished {
                outcome: Err(ManifestError::IoFailure),
            },
            (state, _) => state,
        };
        let action = state.action();
        (state, action)
    }
}

/// Begins to add the package `name` to the manifest, which is created
/// first if it is missing and `create` is set. Gives the first state and
/// the action that it asks for.
pub fn add_dependency(name: &str, create: bool) -> (first: (AddState, AddAction))
    ensures
        first.0@ == initial_state(name@, create),
        first.1@ == pending_action(first.0@),
{
    let name = name.to_owned();
    let state = if create {
        AddState::Probing { name }
    } else {
        AddState::Loading { name }
    };
    let action = state.action();
    (state, action)
}

/// The state reached from `state` when `events` are reported in order.
pub open spec fn state_after(state: AddStateView, events: Seq<AddEventView>) -> AddStateView
    decreases events.len(),
{
    if events.len() == 0 {
        state
    } else {
        next_state(state_after(state, events.drop_last()), events.last())
    }
}

/// Reporting `first` and then `later` is reporting `later` to the state
/// that follows on `first`.
pub proof fn lemma_state_after_first(
    state: AddStateView,
    first: AddEventView,
    later: Seq<AddEventView>,
)
    ensures
        state_after(state, seq![first] + later) == state_after(next_state(state, first), later),
    decreases later.len(),
{
    let events = seq![first] + later;
    if later.len() == 0 {
        assert(events.drop_last() =~= Seq::<AddEventView>::empty());
        assert(state_after(state, events.drop_last()) == state);
    } else {
        assert(events.drop_last() =~= seq![first] + later.drop_last());
        assert(events.last() == later.last());
        lemma_state_after_first(state, first, later.drop_last());
    }
}

/// An operation that is over stays over, with the same result, whatever
/// is reported to it.
pub proof fn lemma_finished_is_final(
    outcome: Result<(), ManifestError>,
    events: Seq<AddEventView>,
)
    ensures
        state_after(AddStateView::Finished { outcome }, events) == (AddStateView::Finished {
            outcome,
        }),
    decreases events.len(),
{
    if events.len() > 0 {
        lemma_finished_is_final(outcome, events.drop_last());
    }
}

/// The actions that a run asks for: the one that `state` asks for, and
/// after each of `events` the one that the state reached asks for.
pub open spec fn asked(state: AddStateView, events: Seq<AddEventView>) -> Seq<AddActionView> {
    Seq::new(events.len() + 1, |k: int| pending_action(state_after(state, events.take(k))))
}

/// Where creation was not asked for, a manifest that is missing ends
/// the operation at once with `NotFound`: the load is the first action
/// asked, and after the report that the manifest is missing every action
/// asked is to stop, whatever is reported later. So the installer is never
/// asked for anything, and nothing is created or saved.
pub proof fn lemma_missing_manifest_stops(name: Seq<char>, later: Seq<AddEventView>)
    ensures
        ({
            let actions = asked(initial_state(name, false), seq![AddEventView::Missing] + later);
            &&& actions[0] == AddActionView::Load
            &&& forall|k: int|
                1 <= k < actions.len() ==> #[trigger] actions[k] == (AddActionView::Stop {
                    outcome: Err(ManifestError::NotFound),
                })
        }),
{
    let first = initial_state(name, false);
    let events = seq![AddEventView::Missing] + later;
    let actions = asked(first, events);
    assert(events.take(0) =~= Seq::<AddEventView>::empty());
    assert forall|k: int| 1 <= k < actions.len() implies #[trigger] actions[k] == (
    AddActionView::Stop { outcome: Err(ManifestError::NotFound) }) by {
        assert(events.take(k) =~= seq![AddEventView::Missing] + later.take(k - 1));
        lemma_state_after_first(first, AddEventView::Missing, later.take(k - 1));
        lemma_finished_is_final(Err(ManifestError::NotFound), later.take(k - 1));
    }
}

/// Where creation was not asked for, no run of the operation asks
/// whether the manifest exists, and none asks to create it.
pub proof fn lemma_no_creation_unless_asked(name: Seq<char>, events: Seq<AddEventView>)
    ensures
        forall|k: int|
            0 <= k <= events.len() ==> {
                let action = #[trigger] asked(initial_state(name, false), events)[k];
                !(action is Probe) && !(action is Create)
            },
{
    assert forall|k: int| 0 <= k <= events.len() implies {
        let action = #[trigger] asked(initial_state(name, false), events)[k];
        !(action is Probe) && !(action is Create)
    } by {
        lemma_never_probing(name, events.take(k));
    }
}

/// A run that begins with the load never comes to probe or to create.
proof fn lemma_never_probing(name: Seq<char>, events: Seq<AddEventView>)
    ensures
        !(state_after(initial_state(name, false), events) is Probing),
        !(state_after(initial_state(name, false), events) is Creating),
    decreases events.len(),
{
    if events.len() > 0 {
        lemma_never_probing(name, events.drop_last());
    }
}

/// From the load on, a run in which nothing fails asks for the
/// installation, then for the list, and then to save the reconciled
/// manifest: the lines of the loaded text, with the matching lines of
/// what the installer listed, joined into one text. It ends well once
/// that is saved. Where what the installer listed is no text, the run
/// ends there with `EncodingFailure`, and nothing is saved.
pub proof fn lemma_run_saves_reconciled(name: Seq<char>, text: Seq<char>, output: Seq<u8>)
    ensures
        ({
            let loaded = AddEventView::Loaded { text };
            let listed = AddEventView::Listed { output };
            let actions = asked(
                AddStateView::Loading { name },
                seq![loaded, AddEventView::Installed, listed, AddEventView::Saved],
            );
            let saved = text_of(reconciled(lines_of(text), lines_of(decode_utf8(output)), name));
            &&& actions[0] == AddActionView::Load
            &&& actions[1] == (AddActionView::Install { name })
            &&& actions[2] == AddActionView::Snapshot
            &&& valid_utf8(output) ==> actions[3] == (AddActionView::Save { text: saved })
                && actions[4] == (AddActionView::Stop { outcome: Ok(()) })
            &&& !valid_utf8(output) ==> actions[3] == (AddActionView::Stop {
                outcome: Err(ManifestError::EncodingFailure),
            }) && actions[4] == actions[3]
        }),
{
    let loading = AddStateView::Loading { name };
    let e1 = AddEventView::Loaded { text };
    let e2 = AddEventView::Installed;
    let e3 = AddEventView::Listed { output };
    let e4 = AddEventView::Saved;
    let events = seq![e1, e2, e3, e4];
    let none = Seq::<AddEventView>::empty();
    assert(events.take(0) =~= none);
    assert(events.take(1) =~= seq![e1]);
    assert(events.take(2) =~= seq![e1, e2]);
    assert(events.take(3) =~= seq![e1, e2, e3]);
    assert(events.take(4) =~= events);
    assert(seq![e1].drop_last() =~= none);
    assert(seq![e1, e2].drop_last() =~= seq![e1]);
    assert(seq![e1, e2, e3].drop_last() =~= seq![e1, e2]);
    assert(events.drop_last() =~= seq![e1, e2, e3]);
    assert(state_after(loading, none) == loading);
    assert(state_after(loading, seq![e1]) == next_state(loading, e1));
    assert(state_after(loading, seq![e1, e2]) == next_state(next_state(loading, e1), e2));
    assert(state_after(loading, seq![e1, e2, e3]) == after_listing(name, lines_of(text), output));
    assert(state_after(loading, events) == next_state(
        after_listing(name, lines_of(text), output),
        e4,
    ));
}

/// What is reconciled from lines without a newline holds no newline
/// within a line either.
proof fn lemma_reconciled_is_newline_free(
    prior: Seq<Seq<char>>,
    snapshot: Seq<Seq<char>>,
    name: Seq<char>,
)
    requires
        newline_free(prior),
        newline_free(snapshot),
    ensures
        newline_free(reconciled(prior, snapshot, name)),
{
    let result = reconciled(prior, snapshot, name);
    lemma_reconciled_lines_are_given(prior, snapshot, name);
    assert forall|i: int, j: int|
        0 <= i < result.len() && 0 <= j < result[i].len() implies #[trigger] result[i][j]
        != '\n' by {
        let line = result[i];
        if prior.contains(line) {
            let k = choose|k: int| 0 <= k < prior.len() && prior[k] == line;
            assert(prior[k][j] != '\n');
        } else {
            let k = choose|k: int| 0 <= k < snapshot.len() && snapshot[k] == line;
            assert(snapshot[k][j] != '\n');
        }
    }
}

/// The text that a run saves loads back as the manifest that was
/// reconciled, and reconciles again as that manifest does. (Where the
/// manifest has no line, the empty text loads as one empty line, which is
/// dropped again.)
pub proof fn lemma_saved_text_loads_back(
    prior: Seq<Seq<char>>,
    snapshot: Seq<Seq<char>>,
    name: Seq<char>,
    later_snapshot: Seq<Seq<char>>,
    later_name: Seq<char>,
)
    requires
        newline_free(prior),
        newline_free(snapshot),
    ensures
        ({
            let saved = reconciled(prior, snapshot, name);
            &&& saved.len() > 0 ==> lines_of(text_of(saved)) == saved
            &&& reconciled(lines_of(text_of(saved)), later_snapshot, later_name) == reconciled(
                saved,
                later_snapshot,
                later_name,
            )
        }),
{
    let saved = reconciled(prior, snapshot, name);
    lemma_reconciled_is_newline_free(prior, snapshot, name);
    if saved.len() > 0 {
        lemma_lines_of_text_of(saved);
    } else {
        assert(saved =~= Seq::<Seq<char>>::empty());
        assert(lines_of(text_of(saved)) =~= seq![Seq::<char>::empty()]);
        lemma_reconciled_of_empty_line(later_snapshot, later_name);
    }
}

/// Adding the same package a second time, when the installer lists the
/// same output and the manifest is the text that the first run saved,
/// saves that text again where the manifest that the first run reconciled
/// is compact and the lines that match the name are all alike. For a name
/// that is not empty it saves another text everywhere else.
pub proof fn lemma_second_run(name: Seq<char>, text: Seq<char>, output: Seq<u8>)
    requires
        valid_utf8(output),
    ensures
        ({
            let snapshot = lines_of(decode_utf8(output));
            let once = reconciled(lines_of(text), snapshot, name);
            let first = after_listing(name, lines_of(text), output);
            let second = after_listing(name, lines_of(text_of(once)), output);
            &&& first == (AddStateView::Saving { text: text_of(once) })
            &&& is_compact(once) && all_alike(matching(snapshot, name)) ==> second == first
            &&& name.len() > 0 && second == first ==> is_compact(once) && all_alike(
                matching(snapshot, name),
            )
        }),
{
    let prior = lines_of(text);
    let snapshot = lines_of(decode_utf8(output));
    let once = reconciled(prior, snapshot, name);
    let twice = reconciled(once, snapshot, name);
    let first = after_listing(name, prior, output);
    let second = after_listing(name, lines_of(text_of(once)), output);
    lemma_lines_of_shape(text);
    lemma_lines_of_shape(decode_utf8(output));
    lemma_saved_text_loads_back(prior, snapshot, name, snapshot, name);
    assert(second == (AddStateView::Saving { text: text_of(twice) }));
    lemma_reconciled_twice(prior, snapshot, name);
    if name.len() > 0 && second == first {
        assert(text_of(twice) == text_of(once));
        lemma_reconciled_is_newline_free(prior, snapshot, name);
        lemma_reconciled_is_newline_free(once, snapshot, name);
        lemma_reconciled_is_blank_free(prior, snapshot, name);
        lemma_reconciled_is_blank_free(once, snapshot, name);
        if once.len() > 0 && twice.len() > 0 {
            lemma_text_of_is_injective(once, twice);
        } else if once.len() > 0 {
            // The empty text has one line, and that line is empty.
            lemma_lines_of_text_of(once);
            assert(twice =~= Seq::<Seq<char>>::empty());
            assert(lines_of(text_of(twice)) =~= seq![Seq::<char>::empty()]);
            assert(once[0].len() > 0);
        } else if twice.len() > 0 {
            lemma_lines_of_text_of(twice);
            assert(once =~= Seq::<Seq<char>>::empty());
            assert(lines_of(text_of(once)) =~= seq![Seq::<char>::empty()]);
            assert(twice[0].len() > 0);
        } else {
            assert(once =~= twice);
        }
        assert(twice == once);
    }
}

} // verus!
