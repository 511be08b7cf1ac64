use siphon::by_login::app_state::{AppState, Change};
use siphon::by_login::config::Config;
use siphon::by_login::gql::decode_body;
use siphon::by_login::hermes::{ChannelEntry, Command, Event, Next, Session, TrackedChannel};
use siphon::by_login::state::{handle_intent, FrameState, UiIntent, WorkEffect, WorkState};
use siphon::by_login::tray::click_action;
use siphon::by_login::window::{badges, connection_text, empty_label, name_tone, submit_add, table};
use siphon::config::Channel;
use siphon::gql::User;
use siphon::hermes::{Effect, SubStatus};
use siphon::tray::{Button, TrayAction};
use siphon::window::Tone;

const NOW: &str = "2026-09-10T18:35:06.000Z";

fn named(id: u64, login: &str) -> User {
    User {
        channel_id: id,
        channel_name: login.to_owned(),
        channel_display_name: login.to_uppercase(),
        profile_image_url: String::new(),
        stream_id: 1,
        stream_title: None,
        stream_start: None,
        game: None,
        live: false,
    }
}

fn bare(login: &str) -> ChannelEntry {
    ChannelEntry {
        login: login.to_owned(),
        id: None,
        display_name: None,
    }
}

fn two_channels() -> Config {
    Config {
        version: 1,
        channels: vec![
            Channel {
                login: "alice".to_owned(),
                id: 1,
                display_name: Some("Alice".to_owned()),
            },
            Channel {
                login: "bob".to_owned(),
                id: 2,
                display_name: None,
            },
        ],
        notify_title_changes: true,
        sound: false,
    }
}

#[test]
fn newer_settings_are_not_read() {
    let mut config = two_channels();
    config.version = 2;
    let loaded = Config::load(Some(config));
    assert!(loaded.channels.is_empty());
    assert_eq!(loaded.version, 0);
    assert!(!loaded.sound && !loaded.notify_title_changes);
    let mut old = two_channels();
    old.version = 0;
    assert_eq!(Config::load(Some(old)).channels.len(), 2);
    assert_eq!(Config::load(None).channels.len(), 0);
}

#[test]
fn responses_are_read_member_by_member() {
    let body = br#"[
        {"data": {"users": [
            null,
            {"id": 5, "broadcastSettings": {"id": "1"}},
            {"id": "bad", "broadcastSettings": {"id": "1"}},
            {"id": "6", "broadcastSettings": null},
            {"id": "7", "login": "alice", "displayName": "Alice",
             "broadcastSettings": {"id": "9", "title": "",
                "game": {"id": "10", "name": "g", "displayName": "G"}},
             "stream": {"createdAt": "1970-01-01T00:00:01Z"}},
            {"id": "8", "broadcastSettings": {"id": "9", "title": "t", "game": null},
             "stream": null}
        ]}},
        {"data": null},
        {"data": {"users": null}}
    ]"#;
    let users = decode_body(body).expect("the body is JSON");
    assert_eq!(users.len(), 2);
    assert_eq!(users[0].channel_id, 7);
    assert_eq!(users[0].channel_name, "alice");
    assert!(users[0].stream_title.is_none());
    assert_eq!(users[0].stream_start, Some(1000));
    assert_eq!(users[0].game.as_ref().map(|game| game.id), Some(10));
    assert!(users[0].live);
    assert_eq!(users[1].channel_name, "");
    assert_eq!(users[1].stream_title.as_deref(), Some("t"));
    assert!(users[1].game.is_none() && !users[1].live);
    assert_eq!(decode_body(b"{}").map(|users| users.len()), Ok(0));
    assert_eq!(
        decode_body(b"[").err().as_deref(),
        Some("EOF while parsing a list at line 1 column 1")
    );
}

#[test]
fn an_entry_without_answer_is_a_placeholder() {
    let entry = ChannelEntry {
        login: "alice".to_owned(),
        id: Some(1),
        display_name: None,
    };
    let placeholder = TrackedChannel::placeholder(&entry);
    assert_eq!(placeholder.login, "alice");
    assert_eq!(placeholder.display_name, "alice");
    assert!(placeholder.avatar.is_empty() && !placeholder.live);
    let mut session = Session::new(0, 3);
    let effects = session.finish_add_channel(entry, Err("offline".to_owned()), NOW);
    assert!(matches!(&effects[..], [Effect::Refresh]));
    let status = session.inner().status(None);
    assert_eq!(status.channels.len(), 1);
    assert_eq!(status.channels[0].display_name, "alice");
    let event = session.event(status);
    assert!(event.unresolved.is_empty());
}

#[test]
fn a_login_without_answer_is_unresolved() {
    let mut session = Session::new(0, 3);
    assert!(!session.has_work());
    let next = session.on_command(Command::AddChannel(bare("typo")), NOW);
    let Next::Look(entry, lookup) = next else {
        panic!("a new login is looked up");
    };
    assert!(lookup.ids.is_empty());
    assert_eq!(lookup.logins, ["typo"]);
    session.finish_add_channel(entry, Ok(Vec::new()), NOW);
    assert!(session.has_work());
    let event = session.event(session.inner().status(None));
    assert_eq!(event.unresolved, ["typo"]);
    // It is known now, and looked up again with every connection.
    assert!(matches!(
        session.on_command(Command::AddChannel(bare("TYPO")), NOW),
        Next::Effects(effects) if effects.is_empty()
    ));
    let lookup = session.connect_lookup();
    assert_eq!(lookup.logins, ["typo"]);
    session.sync(&lookup.ids, Ok(vec![named(4, "Typo")]));
    assert!(session.connect_lookup().logins.is_empty());
    assert_eq!(session.connect_lookup().ids, [4]);
}

#[test]
fn an_entry_with_an_identifier_is_looked_up_by_it() {
    let mut session = Session::new(0, 3);
    let entry = ChannelEntry {
        login: "alice".to_owned(),
        id: Some(1),
        display_name: None,
    };
    let Next::Look(entry, lookup) = session.on_command(Command::AddChannel(entry), NOW) else {
        panic!("a new entry is looked up");
    };
    assert_eq!(lookup.ids, [1]);
    assert!(lookup.logins.is_empty());
    session.finish_add_channel(entry, Ok(vec![named(2, "bob"), named(1, "renamed")]), NOW);
    let status = session.inner().status(None);
    assert_eq!(status.channels[0].login, "renamed");
}

#[test]
fn a_login_is_removed_wherever_it_is() {
    let mut session = Session::new(0, 3);
    session.finish_add_channel(bare("typo"), Ok(Vec::new()), NOW);
    session.finish_add_channel(bare("alice"), Ok(vec![named(1, "Alice")]), NOW);
    session.on_connected(0);
    let Next::Effects(effects) = session.on_command(Command::RemoveChannel("typo".to_owned()), NOW)
    else {
        panic!("a removal has effects");
    };
    assert!(matches!(&effects[..], [Effect::Refresh]));
    let Next::Effects(effects) =
        session.on_command(Command::RemoveChannel("ALICE".to_owned()), NOW)
    else {
        panic!("a removal has effects");
    };
    assert_eq!(effects.len(), 3);
    assert!(!session.has_work());
}

#[test]
fn the_session_runs_as_any_other() {
    let mut session = Session::new(0, 3);
    assert!(matches!(session.begin_connect(0)[0], Effect::Status(_)));
    session.finish_add_channel(bare("alice"), Ok(vec![named(1, "alice")]), NOW);
    assert!(matches!(session.begin_connect(0)[0], Effect::Connect));
    session.on_connected(0);
    let effects = session.handle_message(r#"{"type":"welcome"}"#, 0, NOW);
    assert_eq!(effects.len(), 4);
    assert!(session.on_tick(30_000_000_000).is_empty());
    assert_eq!(session.on_tick(30_000_000_001).len(), 2);
    session.sync(&vec![1], Err("offline".to_owned()));
    assert_eq!(session.on_disconnect(0).len(), 1);
}

#[test]
fn the_session_answers_every_event() {
    let mut session = Session::new(5, 3);
    assert!(!session.should_connect(5));
    session.finish_add_channel(bare("typo"), Ok(Vec::new()), NOW);
    assert!(!session.should_connect(4));
    assert!(session.should_connect(5));
    let next = session.on_event(Event::Command(Command::AddChannel(bare("alice"))), 5, NOW);
    let Next::Look(entry, _) = next else {
        panic!("a new login is looked up");
    };
    session.finish_add_channel(entry, Ok(vec![named(1, "alice")]), NOW);
    session.on_connected(5);
    assert!(!session.should_connect(5));
    let next = session.on_event(Event::Text(r#"{"type":"welcome"}"#.to_owned()), 5, NOW);
    assert!(matches!(next, Next::Effects(effects) if effects.len() == 4));
    let next = session.on_event(Event::Ignored, 5, NOW);
    assert!(matches!(next, Next::Effects(effects) if effects.is_empty()));
    let next = session.on_event(Event::Tick, 30_000_000_005, NOW);
    assert!(matches!(next, Next::Effects(effects) if effects.is_empty()));
    let next = session.on_event(Event::Tick, 30_000_000_006, NOW);
    assert!(matches!(next, Next::Effects(effects) if matches!(effects[0], Effect::Close)));
    assert!(!session.should_connect(30_500_000_005));
    assert!(session.should_connect(30_500_000_006));
    let next = session.on_event(Event::Closed, 30_500_000_006, NOW);
    assert!(matches!(next, Next::Effects(effects) if effects.len() == 1));
    assert!(session.should_connect(31_500_000_006));
}

#[test]
fn a_command_goes_out_once_the_settings_are_written() {
    let (mut app, _) = AppState::new(two_channels());
    let Change::Save(save) = app.set_sound(true) else {
        panic!("settings are written");
    };
    assert!(matches!(app.commit_save(save, Ok(())), Ok(Command::SetSound(true))));
    let Change::Save(save) = app.remove_channel("bob".to_owned()) else {
        panic!("settings are written");
    };
    let failed = app.commit_save(save, Err("disk full".to_owned()));
    assert_eq!(failed.err().as_deref(), Some("disk full"));
    assert_eq!(app.get_config().channels.len(), 1);
}

#[test]
fn the_session_is_seeded_from_the_settings() {
    let work = WorkState::new(two_channels());
    let effects = work.seed();
    assert_eq!(effects.len(), 5);
    assert!(matches!(
        &effects[0],
        WorkEffect::Forward(Command::AddChannel(entry))
            if entry.login == "alice" && entry.id == Some(1)
    ));
    assert!(matches!(
        effects[2],
        WorkEffect::Forward(Command::SetNotifyTitleChanges(true))
    ));
    assert!(matches!(effects[3], WorkEffect::Forward(Command::SetSound(false))));
    assert!(matches!(effects[4], WorkEffect::Frame(_)));
}

#[test]
fn unknown_logins_go_to_the_session_alone() {
    let mut work = WorkState::new(two_channels());
    let (login, _) = work.begin_add_login(" Carol ");
    assert_eq!(login.as_deref(), Some("carol"));
    assert!(work.begin_add_login("ALICE").0.is_none());
    assert!(work.begin_add_login("").0.is_none());
    let (save, effects) = work.finish_add_login("carol".to_owned(), Err("offline".to_owned()));
    assert!(save.is_none());
    assert!(matches!(
        &effects[0],
        WorkEffect::Forward(Command::AddChannel(entry))
            if entry.login == "carol" && entry.id.is_none()
    ));
    assert!(matches!(effects[1], WorkEffect::Frame(_)));
    let (save, _) = work.finish_add_login("carol".to_owned(), Ok(vec![named(3, "Carol")]));
    let save = save.expect("settings are written");
    assert_eq!(save.config.channels.len(), 3);
    let effects = work.commit_save(save, Ok(()));
    assert_eq!(effects.len(), 2);
    let (save, effects) = work.finish_add_login("carol".to_owned(), Ok(vec![named(3, "carol")]));
    assert!(save.is_none() && effects.is_empty());
}

#[test]
fn wishes_name_logins() {
    let mut work = WorkState::new(two_channels());
    let step = handle_intent(&mut work, UiIntent::RemoveLogin("ALICE".to_owned()));
    let save = step.save.expect("settings are written");
    assert_eq!(save.config.channels.len(), 1);
    assert!(matches!(&save.forward, Command::RemoveChannel(login) if login == "ALICE"));
    let effects = work.commit_save(save, Err("disk full".to_owned()));
    assert!(matches!(&effects[0], WorkEffect::Frame(frame) if frame.error == "disk full"));
    let step = handle_intent(&mut work, UiIntent::SetSound(true));
    assert!(step.save.is_some_and(|save| save.config.sound));
    let step = handle_intent(&mut work, UiIntent::SetNotifyTitleChanges(false));
    assert!(step.save.is_some_and(|save| !save.config.notify_title_changes));
    let step = handle_intent(&mut work, UiIntent::AddLogin("dave".to_owned()));
    assert_eq!(step.lookup.as_deref(), Some("dave"));
}

#[test]
fn changes_one_at_a_time() {
    let mut config = two_channels();
    config.version = 0;
    let (mut app, must_save) = AppState::new(config);
    assert!(must_save);
    assert_eq!(app.get_config().version, 1);
    assert!(app.get_status().is_none());
    assert_eq!(app.startup().len(), 4);
    assert!(app.begin_add_channel("Bob").is_none());
    assert_eq!(app.begin_add_channel(" Carol").as_deref(), Some("carol"));
    assert!(matches!(
        app.add_channel("carol".to_owned(), Ok(Vec::new())),
        Change::Send(Command::AddChannel(entry)) if entry.id.is_none()
    ));
    assert!(matches!(
        app.add_channel("carol".to_owned(), Ok(vec![named(3, "carol")])),
        Change::Save(save) if save.config.channels.len() == 3
    ));
    assert!(matches!(
        app.add_channel("carol".to_owned(), Ok(vec![named(3, "carol")])),
        Change::Nothing
    ));
    assert!(matches!(
        app.remove_channel("CAROL".to_owned()),
        Change::Save(save) if save.config.channels.len() == 2
    ));
    assert!(matches!(app.set_sound(true), Change::Save(save) if save.config.sound));
    assert!(matches!(
        app.set_notify_title_changes(false),
        Change::Save(save) if !save.config.notify_title_changes
    ));
    let (_, must_save) = AppState::new(two_channels());
    assert!(!must_save);
}

#[test]
fn logins_that_were_not_found_are_marked() {
    let mut session = Session::new(0, 3);
    session.finish_add_channel(bare("bob"), Ok(Vec::new()), NOW);
    session.finish_add_channel(bare("alice"), Ok(vec![named(1, "alice")]), NOW);
    let event = session.event(session.inner().status(None));
    assert_eq!(
        connection_text(&Some(session.event(session.inner().status(None)))),
        ("Connecting…".to_owned(), Tone::Red)
    );
    assert_eq!(connection_text(&None), ("Connecting…".to_owned(), Tone::Gray));
    let rows = table(&FrameState {
        config: two_channels(),
        status: Some(event),
        error: String::new(),
    });
    assert_eq!(rows.len(), 2);
    assert_eq!(rows[0].name, "ALICE");
    assert!(!rows[0].not_found);
    assert!(rows[0].live == SubStatus::Pending);
    assert_eq!(rows[1].name, "bob");
    assert!(rows[1].not_found);
    assert_eq!(rows[1].remove, "bob");
    assert_eq!(name_tone(&rows[0]), None);
    assert_eq!(badges(&rows[0]), (("Pending", Tone::Gray), ("Pending", Tone::Gray)));
    assert_eq!(name_tone(&rows[1]), Some(Tone::Red));
    assert_eq!(badges(&rows[1]), (("Not found", Tone::Red), ("Not found", Tone::Red)));
    assert_eq!(empty_label(&rows), None);
    assert_eq!(
        empty_label(&Vec::new()),
        Some("No channels configured. Add a streamer below.")
    );
}

#[test]
fn a_typed_login_is_handed_in() {
    let mut line = "  Carol ".to_owned();
    assert!(matches!(submit_add(&mut line), Some(UiIntent::AddLogin(login)) if login == "Carol"));
    assert!(line.is_empty());
    let mut blank = " ".to_owned();
    assert!(submit_add(&mut blank).is_none());
    assert!(blank.is_empty());
}

#[test]
fn the_left_button_counts_when_it_is_released() {
    assert_eq!(click_action(Button::Left, true), Some(TrayAction::Show));
    assert_eq!(click_action(Button::Left, false), None);
    assert_eq!(click_action(Button::Right, true), None);
    assert_eq!(click_action(Button::Middle, true), None);
}
