use gcxm_core::bootstrap::{BOOTSTRAP_TIMEOUT_SECS, BootstrapAction, BootstrapInput,
    BootstrapState, CollabEditorOptions, SyncEvent, bootstrap_conversion, bootstrap_push_result,
    bootstrap_step};
use gcxm_core::commands::{EditCommand, InsertChildCammand};
use gcxm_core::controller::{get_history, render_history_entry};
use gcxm_core::editor::{DemoEditor, GcxmPost};
use gcxm_core::errors::SyncError;
use gcxm_core::initialize::init_options;
use gcxm_core::model::Attr;
use gcxm_core::render::render;
use gcxm_core::strutil::dec_string;
use gcxm_core::timefmt::format_timestamp;

const NOW: u64 = 1_700_000_000;

fn demo_editor() -> DemoEditor {
    let post = GcxmPost { name: String::from("P"), id: Some(String::from("root")) };
    DemoEditor::create(init_options(), &post, NOW)
}

#[test]
fn timeout_constant_is_ten_seconds() {
    assert_eq!(BOOTSTRAP_TIMEOUT_SECS, 10);
}

#[test]
fn collab_options_keep_their_fields() {
    let o = CollabEditorOptions::new(String::from("ws://server"), String::from("room-1"));
    assert_eq!(o.server_url, "ws://server");
    assert_eq!(o.room_name, "room-1");
}

// Scenario: bootstrap with remote has_data=false ends local
// authoritative, after seeding the remote.
#[test]
fn bootstrap_without_remote_data_is_local_authoritative() {
    let (s, a) = bootstrap_step(&BootstrapState::Connecting, &BootstrapInput::TimedOut);
    assert_eq!(s, BootstrapState::AwaitingInitialSync);
    assert_eq!(a, BootstrapAction::Connect);

    let (s, a) = bootstrap_step(
        &s,
        &BootstrapInput::Event(SyncEvent::InitialSyncCompleted { has_data: false }),
    );
    assert_eq!(s, BootstrapState::LocalAuthoritative);
    assert_eq!(a, BootstrapAction::SeedRemote);

    let (s, a) = bootstrap_push_result(&s, true);
    assert_eq!(s, BootstrapState::LocalAuthoritative);
    assert_eq!(a, BootstrapAction::Done);
}

// Scenario: the bounded wait elapses with no event; the session fails
// with the timeout error and no runtime is kept.
#[test]
fn bootstrap_timeout_fails_with_sync_timeout() {
    let (s, a) = bootstrap_step(&BootstrapState::AwaitingInitialSync, &BootstrapInput::TimedOut);
    assert_eq!(s, BootstrapState::Failed);
    assert_eq!(a, BootstrapAction::Fail(SyncError::SyncTimeout));
    // Terminal: further inputs change nothing.
    let (s2, a2) = bootstrap_step(
        &s,
        &BootstrapInput::Event(SyncEvent::InitialSyncCompleted { has_data: true }),
    );
    assert_eq!(s2, BootstrapState::Failed);
    assert_eq!(a2, BootstrapAction::Done);
}

#[test]
fn bootstrap_with_remote_data_converts_and_is_remote_authoritative() {
    let (s, a) = bootstrap_step(
        &BootstrapState::AwaitingInitialSync,
        &BootstrapInput::Event(SyncEvent::InitialSyncCompleted { has_data: true }),
    );
    assert_eq!(s, BootstrapState::AwaitingInitialSync);
    assert_eq!(a, BootstrapAction::ConvertRemote);
    let (s, a) = bootstrap_conversion(&s, true);
    assert_eq!(s, BootstrapState::RemoteAuthoritative);
    assert_eq!(a, BootstrapAction::Done);
}

// Conversion failure is silently recovered: local seeds the remote.
#[test]
fn bootstrap_conversion_failure_recovers_locally() {
    let (s, a) = bootstrap_conversion(&BootstrapState::AwaitingInitialSync, false);
    assert_eq!(s, BootstrapState::LocalAuthoritative);
    assert_eq!(a, BootstrapAction::SeedRemote);
    let (s, a) = bootstrap_push_result(&s, false);
    assert_eq!(s, BootstrapState::Failed);
    assert_eq!(a, BootstrapAction::Fail(SyncError::SyncPushFailed));
}

#[test]
fn other_events_keep_waiting() {
    let (s, a) = bootstrap_step(
        &BootstrapState::AwaitingInitialSync,
        &BootstrapInput::Event(SyncEvent::Other),
    );
    assert_eq!(s, BootstrapState::AwaitingInitialSync);
    assert_eq!(a, BootstrapAction::KeepWaiting);
}

#[test]
fn sync_error_messages_are_stable() {
    assert_eq!(SyncError::SyncTimeout.message(), "server did not answer within the sync timeout");
    assert_eq!(
        SyncError::SyncPushFailed.message(),
        "failed to push local state to the server"
    );
}

#[test]
fn render_fills_placeholders_from_metadata() {
    let template = String::from("insert {{name}} under {{parent}}");
    let meta = vec![
        Attr { key: String::from("name"), value: String::from("Unit A") },
        Attr { key: String::from("parent"), value: String::from("root") },
    ];
    assert_eq!(render(&template, &meta), "insert Unit A under root");
}

#[test]
fn render_keeps_unknown_placeholders_verbatim() {
    let template = String::from("a {{missing}} b");
    let meta = vec![Attr { key: String::from("name"), value: String::from("x") }];
    assert_eq!(render(&template, &meta), "a {{missing}} b");
}

#[test]
fn render_without_placeholders_copies_text() {
    let template = String::from("plain { text } with }} braces");
    assert_eq!(render(&template, &Vec::new()), "plain { text } with }} braces");
}

#[test]
fn render_uses_first_value_of_duplicate_keys() {
    let template = String::from("{{k}}");
    let meta = vec![
        Attr { key: String::from("k"), value: String::from("one") },
        Attr { key: String::from("k"), value: String::from("two") },
    ];
    assert_eq!(render(&template, &meta), "one");
}

#[test]
fn decimal_strings_are_canonical() {
    assert_eq!(dec_string(0), "0");
    assert_eq!(dec_string(7), "7");
    assert_eq!(dec_string(1234567890), "1234567890");
    assert_eq!(dec_string(u64::MAX), "18446744073709551615");
}

#[test]
fn timestamps_format_as_calendar_text() {
    assert_eq!(format_timestamp(0, 0), "1970-01-01 00:00:00");
    assert_eq!(format_timestamp(86399, 0), "1970-01-01 23:59:59");
    assert_eq!(format_timestamp(86400, 0), "1970-01-02 00:00:00");
    // A leap day.
    assert_eq!(format_timestamp(951_782_400, 0), "2000-02-29 00:00:00");
    assert_eq!(format_timestamp(NOW, 0), "2023-11-14 22:13:20");
    // The offset shifts the local time; negative offsets clamp at the
    // epoch.
    assert_eq!(format_timestamp(0, 3600), "1970-01-01 01:00:00");
    assert_eq!(format_timestamp(0, -3600), "1970-01-01 00:00:00");
    assert_eq!(format_timestamp(NOW, -86399), "2023-11-13 22:13:21");
}

#[test]
fn history_renders_descriptions_from_snapshots() {
    let mut ed = demo_editor();
    let cmd = EditCommand::Insert(InsertChildCammand {
        editor_name: String::from("root"),
        parent_id: String::from("root"),
        id: Some(String::from("a")),
        node_type: String::from("dxgc"),
        other: vec![Attr { key: String::from("name"), value: String::from("Sub A") }],
    });
    let meta = vec![Attr { key: String::from("other.name"), value: String::from("Sub A") }];
    let desc = String::from("insert child {{other.name}}");
    assert!(ed.command_with_meta(&cmd, desc, meta, NOW).is_ok());

    let history = get_history(&ed);
    assert_eq!(history.len(), 2);
    // The creation entry, then the insert, rendered from its metadata
    // snapshot.
    assert_eq!(history[0].state_version, 1);
    assert_eq!(history[1].state_version, 2);
    assert_eq!(history[1].description, "insert child Sub A");
    assert!(!history[1].timestamp.is_empty());
}

#[test]
fn rendered_entry_keeps_version_and_renders_template() {
    let ed = demo_editor();
    let entry = &ed.history.present;
    let rendered = render_history_entry(entry);
    assert_eq!(rendered.state_version, 1);
    assert_eq!(rendered.description, "");
    assert!(!rendered.current);
    // The timestamp is the creation instant under the machine's local
    // offset: a fixed-shape calendar text.
    assert_eq!(rendered.timestamp.len(), 19);
}
