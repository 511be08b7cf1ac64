use siphon::config::{Channel, Config};
use siphon::event_loop::handle_intent;
use siphon::gql::User;
use siphon::hermes::{Command, Status};
use siphon::state::{FrameState, UiIntent, WorkEffect, WorkState};
use siphon::tray::TrayAction;

fn channel(login: &str, id: u64) -> Channel {
    Channel {
        login: login.to_owned(),
        id,
        display_name: None,
    }
}

fn alice_and_bob() -> Config {
    Config {
        channels: vec![channel("alice", 1), channel("bob", 2)],
        ..Config::default()
    }
}

fn found(id: u64, login: &str) -> User {
    User {
        channel_id: id,
        channel_name: login.to_owned(),
        channel_display_name: "Alice".to_owned(),
        profile_image_url: String::new(),
        stream_id: 9,
        stream_title: None,
        stream_start: None,
        game: None,
        live: false,
    }
}

fn frames(effects: &[WorkEffect]) -> Vec<&FrameState> {
    effects
        .iter()
        .filter_map(|effect| match effect {
            WorkEffect::Frame(frame) => Some(frame),
            _ => None,
        })
        .collect()
}

fn logins(config: &Config) -> Vec<&str> {
    config.channels.iter().map(|c| c.login.as_str()).collect()
}

#[test]
fn remove_channel_persists_and_forwards() {
    let mut work = WorkState::new(alice_and_bob());
    let save = work.apply_remove_channel(1);
    assert_eq!(logins(&save.config), ["bob"]);
    let effects = work.commit_save(save, Ok(()));
    assert_eq!(effects.len(), 2);
    assert!(matches!(
        effects[0],
        WorkEffect::Forward(Command::RemoveChannel(id)) if id == 1
    ));
    assert_eq!(logins(&frames(&effects)[0].config), ["bob"]);
}

#[test]
fn finish_add_login_persists_resolved_channel() {
    let mut work = WorkState::new(Config::default());
    let (save, effects) = work.finish_add_login("alice".to_owned(), Ok(vec![found(7, "alice")]));
    assert!(effects.is_empty());
    let save = save.expect("settings are written");
    assert_eq!(save.config.channels.len(), 1);
    assert_eq!(save.config.channels[0].login, "alice");
    assert_eq!(save.config.channels[0].id, 7);
    assert_eq!(save.config.channels[0].display_name.as_deref(), Some("Alice"));
    assert_eq!(save.config.version, Config::VERSION);
    let effects = work.commit_save(save, Ok(()));
    assert!(matches!(
        &effects[0],
        WorkEffect::Forward(Command::AddChannel(login)) if login == "alice"
    ));
}

#[test]
fn finish_add_login_surfaces_error_without_touching_disk() {
    let mut work = WorkState::new(Config::default());
    let (save, effects) = work.finish_add_login("typo".to_owned(), Ok(Vec::new()));
    assert!(save.is_none(), "typos must not create a config file");
    assert!(
        effects.iter().all(|effect| matches!(effect, WorkEffect::Frame(_))),
        "unresolvable logins must not reach the session"
    );
    assert!(
        !frames(&effects)[0].error.is_empty(),
        "unresolvable logins must surface an error"
    );
    assert_eq!(frames(&effects)[0].error, "channel typo not found");
    assert_eq!(effects.len(), 2);
}

#[test]
fn prune_ids_removes_missing_and_surfaces_error() {
    let mut work = WorkState::new(alice_and_bob());
    let config = work.apply_prune_ids(&[1]).expect("settings are written");
    assert_eq!(logins(&config), ["bob"]);
    let effects = work.finish_prune_ids(Ok(()));
    let frame = frames(&effects)[0];
    assert_eq!(frame.config.channels.len(), 1);
    assert!(
        !frame.error.is_empty(),
        "pruned channels must surface an error"
    );
    assert_eq!(frame.error, "a channel no longer resolves and was removed");
    assert!(work.apply_prune_ids(&[1, 77]).is_none());
}

#[test]
fn pruning_a_login() {
    let mut work = WorkState::new(alice_and_bob());
    let config = work.apply_prune_login("ALICE").expect("settings are written");
    assert_eq!(logins(&config), ["bob"]);
    let effects = work.finish_prune_login("ALICE", Err("disk full".to_owned()));
    assert_eq!(frames(&effects)[0].error, "disk full");
    assert!(work.apply_prune_login("carol").is_none());
    let effects = work.finish_prune_login("carol", Ok(()));
    assert_eq!(frames(&effects)[0].error, "channel carol not found");
}

#[test]
fn a_failed_lookup_is_shown() {
    let mut work = WorkState::new(Config::default());
    let (save, effects) = work.finish_add_login("alice".to_owned(), Err("timed out".to_owned()));
    assert!(save.is_none());
    assert_eq!(frames(&effects)[0].error, "failed to resolve alice: timed out");
}

#[test]
fn a_channel_that_is_known_is_not_added_again() {
    let mut work = WorkState::new(alice_and_bob());
    let (save, effects) =
        work.finish_add_login("renamed".to_owned(), Ok(vec![found(1, "renamed")]));
    assert!(save.is_none());
    assert_eq!(frames(&effects).len(), 1);
    assert!(frames(&effects)[0].error.is_empty());
    assert_eq!(logins(work.config_snapshot()), ["alice", "bob"]);
}

#[test]
fn a_failed_write_is_shown_and_nothing_is_forwarded() {
    let mut work = WorkState::new(alice_and_bob());
    let save = work.apply_sound(false);
    let effects = work.commit_save(save, Err("disk full".to_owned()));
    assert_eq!(effects.len(), 1);
    assert_eq!(frames(&effects)[0].error, "disk full");
    assert!(!frames(&effects)[0].config.sound);
    let effects = work.clear_error();
    assert!(frames(&effects)[0].error.is_empty());
}

#[test]
fn logins_are_trimmed_and_lowered() {
    let mut work = WorkState::new(alice_and_bob());
    let (login, effects) = work.begin_add_login("  CaRoL\t");
    assert_eq!(login.as_deref(), Some("carol"));
    assert_eq!(effects.len(), 1);
    // Known logins, pending ones and blank input are ignored.
    assert!(work.begin_add_login("Alice").0.is_none());
    assert!(work.begin_add_login("CAROL").0.is_none());
    assert!(work.begin_add_login("   ").0.is_none());
    let (_, _) = work.finish_add_login("carol".to_owned(), Err("offline".to_owned()));
    assert_eq!(work.begin_add_login("carol").0.as_deref(), Some("carol"));
    assert_eq!(work.begin_add_login("ÉCOLE").0.as_deref(), Some("école"));
}

#[test]
fn a_login_in_its_final_form_is_taken_as_it_is() {
    let mut work = WorkState::new(alice_and_bob());
    assert_eq!(
        work.begin_add_normalized("Carol ".to_owned()).0.as_deref(),
        Some("Carol ")
    );
    assert!(work.begin_add_normalized(String::new()).0.is_none());
    assert!(work.begin_add_normalized("BOB".to_owned()).0.is_none());
}

#[test]
fn pending_logins_are_shown_with_the_status() {
    let mut work = WorkState::new(Config::default());
    work.begin_add_login("carol");
    assert!(frames(&work.push_frame())[0].status.is_none());
    let effects = work.set_status(Status {
        connected: true,
        error: None,
        channels: Vec::new(),
    });
    let frame = frames(&effects)[0];
    let status = frame.status.as_ref().expect("status");
    assert!(status.connected);
    assert_eq!(status.pending_adds, ["carol"]);
}

#[test]
fn wishes_of_the_window() {
    let mut work = WorkState::new(alice_and_bob());
    let step = handle_intent(&mut work, UiIntent::AddLogin("carol".to_owned()));
    assert_eq!(step.lookup.as_deref(), Some("carol"));
    assert!(step.save.is_none());
    let step = handle_intent(&mut work, UiIntent::RemoveChannel(2));
    let save = step.save.expect("settings are written");
    assert_eq!(logins(&save.config), ["alice"]);
    assert!(matches!(save.forward, Command::RemoveChannel(2)));
    let step = handle_intent(&mut work, UiIntent::SetNotifyTitleChanges(false));
    let save = step.save.expect("settings are written");
    assert!(!save.config.notify_title_changes);
    assert!(matches!(save.forward, Command::SetNotifyTitleChanges(false)));
    let step = handle_intent(&mut work, UiIntent::SetSound(false));
    assert!(matches!(
        step.save.map(|save| save.forward),
        Some(Command::SetSound(false))
    ));
    let step = handle_intent(&mut work, UiIntent::ClearError);
    assert_eq!(frames(&step.effects).len(), 1);
    let effects = work.forward_tray(TrayAction::Quit);
    assert!(matches!(effects[0], WorkEffect::Tray(TrayAction::Quit)));
}
