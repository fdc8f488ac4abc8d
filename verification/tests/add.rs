use carpy::add::{add_dependency, AddAction, AddEvent, AddState};
use carpy::error::ManifestError;

fn stop(outcome: Result<(), ManifestError>) -> AddAction {
    AddAction::Stop { outcome }
}

fn loaded(text: &str) -> AddEvent {
    AddEvent::Loaded { text: text.to_string() }
}

fn listed(output: &[u8]) -> AddEvent {
    AddEvent::Listed { output: output.to_vec() }
}

#[test]
fn without_create_the_manifest_is_loaded_at_once() {
    let (state, action) = add_dependency("requests", false);
    assert_eq!(state, AddState::Loading { name: "requests".to_string() });
    assert_eq!(action, AddAction::Load);
}

#[test]
fn with_create_the_manifest_is_probed_first() {
    let (state, action) = add_dependency("requests", true);
    assert_eq!(state, AddState::Probing { name: "requests".to_string() });
    assert_eq!(action, AddAction::Probe);
}

#[test]
fn creation_gate_missing_manifest_is_not_found() {
    let (state, action) = add_dependency("requests", false);
    assert_eq!(action, AddAction::Load);
    let (state, action) = state.step(AddEvent::Missing);
    assert_eq!(state, AddState::Finished { outcome: Err(ManifestError::NotFound) });
    assert_eq!(action, stop(Err(ManifestError::NotFound)));
    // Whatever is reported afterwards, nothing but stopping is asked.
    let (state, action) = state.step(AddEvent::Installed);
    assert_eq!(action, stop(Err(ManifestError::NotFound)));
    let (state, action) = state.step(listed(b"requests==2.28.1\n"));
    assert_eq!(action, stop(Err(ManifestError::NotFound)));
    let (_, action) = state.step(AddEvent::Saved);
    assert_eq!(action, stop(Err(ManifestError::NotFound)));
}

#[test]
fn a_missing_manifest_is_created_where_asked() {
    let (state, _) = add_dependency("requests", true);
    let (state, action) = state.step(AddEvent::Probed { exists: false });
    assert_eq!(action, AddAction::Create);
    let (state, action) = state.step(AddEvent::Created);
    assert_eq!(state, AddState::Loading { name: "requests".to_string() });
    assert_eq!(action, AddAction::Load);
}

#[test]
fn a_manifest_that_exists_is_not_created() {
    let (state, _) = add_dependency("requests", true);
    let (state, action) = state.step(AddEvent::Probed { exists: true });
    assert_eq!(state, AddState::Loading { name: "requests".to_string() });
    assert_eq!(action, AddAction::Load);
}

#[test]
fn failing_to_create_is_an_io_failure() {
    let (state, _) = add_dependency("requests", true);
    let (state, _) = state.step(AddEvent::Probed { exists: false });
    let (_, action) = state.step(AddEvent::IoFailed);
    assert_eq!(action, stop(Err(ManifestError::IoFailure)));
}

#[test]
fn failing_to_load_is_an_io_failure() {
    let (state, _) = add_dependency("requests", false);
    let (_, action) = state.step(AddEvent::IoFailed);
    assert_eq!(action, stop(Err(ManifestError::IoFailure)));
}

#[test]
fn the_installer_runs_after_the_load() {
    let (state, _) = add_dependency("requests", false);
    let (state, action) = state.step(loaded("a==1\n\nb==2"));
    assert_eq!(
        state,
        AddState::Installing {
            name: "requests".to_string(),
            prior: vec!["a==1".to_string(), "".to_string(), "b==2".to_string()],
        }
    );
    assert_eq!(action, AddAction::Install { name: "requests".to_string() });
    let (_, action) = state.step(AddEvent::Installed);
    assert_eq!(action, AddAction::Snapshot);
}

#[test]
fn an_installer_that_does_not_start_ends_the_operation() {
    let (state, _) = add_dependency("requests", false);
    let (state, _) = state.step(loaded("a==1"));
    let (_, action) = state.step(AddEvent::SpawnFailed);
    assert_eq!(action, stop(Err(ManifestError::InstallerSpawnFailure)));

    let (state, _) = add_dependency("requests", false);
    let (state, _) = state.step(loaded("a==1"));
    let (state, _) = state.step(AddEvent::Installed);
    let (_, action) = state.step(AddEvent::SpawnFailed);
    assert_eq!(action, stop(Err(ManifestError::InstallerSpawnFailure)));
}

#[test]
fn output_that_is_no_text_is_an_encoding_failure() {
    let (state, _) = add_dependency("requests", false);
    let (state, _) = state.step(loaded("a==1"));
    let (state, _) = state.step(AddEvent::Installed);
    let (state, action) = state.step(listed(&[b'r', b'e', 0xff, b'q']));
    assert_eq!(state, AddState::Finished { outcome: Err(ManifestError::EncodingFailure) });
    assert_eq!(action, stop(Err(ManifestError::EncodingFailure)));
}

#[test]
fn truncated_utf8_is_an_encoding_failure() {
    let (state, _) = add_dependency("requests", false);
    let (state, _) = state.step(loaded(""));
    let (state, _) = state.step(AddEvent::Installed);
    let (_, action) = state.step(listed(&[0xe6, 0x97]));
    assert_eq!(action, stop(Err(ManifestError::EncodingFailure)));
}

#[test]
fn end_to_end_run_saves_the_reconciled_manifest() {
    let (state, action) = add_dependency("requests", false);
    assert_eq!(action, AddAction::Load);
    let (state, action) = state.step(loaded("requests==2.0"));
    assert_eq!(action, AddAction::Install { name: "requests".to_string() });
    let (state, action) = state.step(AddEvent::Installed);
    assert_eq!(action, AddAction::Snapshot);
    let (state, action) = state.step(listed(b"requests==2.28.1\nurllib3==1.26\n"));
    assert_eq!(action, AddAction::Save { text: "requests==2.0\nrequests==2.28.1".to_string() });
    let (state, action) = state.step(AddEvent::Saved);
    assert_eq!(state, AddState::Finished { outcome: Ok(()) });
    assert_eq!(action, stop(Ok(())));
}

#[test]
fn a_second_run_on_the_saved_text_saves_it_again() {
    let mut text = "requests==2.0".to_string();
    for _ in 0..2 {
        let (state, _) = add_dependency("requests", false);
        let (state, _) = state.step(loaded(&text));
        let (state, _) = state.step(AddEvent::Installed);
        let (_, action) = state.step(listed(b"requests==2.28.1\nurllib3==1.26\n"));
        match action {
            AddAction::Save { text: saved } => text = saved,
            other => panic!("save was not asked: {:?}", other),
        }
        assert_eq!(text, "requests==2.0\nrequests==2.28.1");
    }
}

#[test]
fn decoded_output_keeps_characters_beyond_ascii() {
    let (state, _) = add_dependency("naï", false);
    let (state, _) = state.step(loaded(""));
    let (state, _) = state.step(AddEvent::Installed);
    let (_, action) = state.step(listed("naïve==1\nnaive==2\n".as_bytes()));
    assert_eq!(action, AddAction::Save { text: "naïve==1".to_string() });
}

#[test]
fn an_installation_that_adds_nothing_saves_the_manifest_without_blanks() {
    let (state, _) = add_dependency("requests", false);
    let (state, _) = state.step(loaded("a==1\n\nb==2\n"));
    let (state, _) = state.step(AddEvent::Installed);
    let (_, action) = state.step(listed(b""));
    assert_eq!(action, AddAction::Save { text: "a==1\nb==2".to_string() });
}

#[test]
fn failing_to_save_is_an_io_failure() {
    let (state, _) = add_dependency("requests", false);
    let (state, _) = state.step(loaded("a==1"));
    let (state, _) = state.step(AddEvent::Installed);
    let (state, _) = state.step(listed(b"requests==1\n"));
    let (_, action) = state.step(AddEvent::IoFailed);
    assert_eq!(action, stop(Err(ManifestError::IoFailure)));
}

#[test]
fn an_event_that_answers_nothing_is_ignored() {
    let (state, _) = add_dependency("requests", false);
    let (state, action) = state.step(AddEvent::Saved);
    assert_eq!(state, AddState::Loading { name: "requests".to_string() });
    assert_eq!(action, AddAction::Load);
    let (state, action) = state.step(AddEvent::SpawnFailed);
    assert_eq!(state, AddState::Loading { name: "requests".to_string() });
    assert_eq!(action, AddAction::Load);
    let (state, _) = state.step(loaded("a==1"));
    let (_, action) = state.step(AddEvent::Missing);
    assert_eq!(action, AddAction::Install { name: "requests".to_string() });
}

#[test]
fn action_repeats_what_the_state_asks_for() {
    let state = AddState::Saving { text: "a==1".to_string() };
    assert_eq!(state.action(), AddAction::Save { text: "a==1".to_string() });
    let state = AddState::Finished { outcome: Ok(()) };
    assert_eq!(state.action(), stop(Ok(())));
}

#[test]
fn messages_name_what_went_wrong() {
    assert_eq!(ManifestError::NotFound.message(), "the manifest does not exist");
    assert_eq!(ManifestError::IoFailure.message(), "the manifest could not be read or written");
    assert_eq!(
        ManifestError::InstallerSpawnFailure.message(),
        "the installer could not be started"
    );
    assert_eq!(
        ManifestError::EncodingFailure.message(),
        "the installer's output is not valid UTF-8"
    );
}
