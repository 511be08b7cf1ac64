use serde_json::Value;
use siphon::config::{Channel, Config};
use siphon::gql::{Game, User};
use siphon::hermes::{Command, Effect, Event, Session, Status, SubStatus};
use siphon::notifier::Toast;

const SECOND: u64 = 1_000_000_000;
const STAMP: &str = "2026-09-10T18:35:06.000Z";

fn user(id: u64, login: &str) -> User {
    User {
        channel_id: id,
        channel_name: login.to_owned(),
        channel_display_name: login.to_uppercase(),
        profile_image_url: format!("https://cdn/{login}.png"),
        stream_id: id + 1000,
        stream_title: Some("old title".to_owned()),
        stream_start: None,
        game: Some(Game {
            id: 5,
            name: "chess".to_owned(),
            display_name: "Chess".to_owned(),
        }),
        live: false,
    }
}

fn settings_with(ids: &[u64]) -> Config {
    Config {
        channels: ids
            .iter()
            .map(|id| Channel {
                login: format!("login{id}"),
                id: *id,
                display_name: None,
            })
            .collect(),
        ..Config::default()
    }
}

fn object(members: Vec<(&str, Value)>) -> Value {
    let mut map = serde_json::Map::new();
    for (key, value) in members {
        map.insert(key.to_owned(), value);
    }
    Value::Object(map)
}

fn sent(effects: &[Effect]) -> Vec<Value> {
    effects
        .iter()
        .filter_map(|effect| match effect {
            Effect::Send(text) => Some(serde_json::from_str(text).expect("JSON is sent")),
            _ => None,
        })
        .collect()
}

fn toasts(effects: &[Effect]) -> Vec<&Toast> {
    effects
        .iter()
        .filter_map(|effect| match effect {
            Effect::Notify(toast) => Some(toast),
            _ => None,
        })
        .collect()
}

fn statuses(effects: &[Effect]) -> Vec<&Status> {
    effects
        .iter()
        .filter_map(|effect| match effect {
            Effect::Status(status) => Some(status),
            _ => None,
        })
        .collect()
}

fn welcome(keepalive: u64) -> String {
    object(vec![
        ("type", Value::from("welcome")),
        ("welcome", object(vec![("keepaliveSec", Value::from(keepalive))])),
    ])
    .to_string()
}

fn response(id: &str, result: &str) -> String {
    object(vec![
        ("type", Value::from("subscribeResponse")),
        (
            "subscribeResponse",
            object(vec![
                ("result", Value::from(result)),
                ("subscription", object(vec![("id", Value::from(id))])),
            ]),
        ),
    ])
    .to_string()
}

fn notification(id: &str, payload: &Value) -> String {
    object(vec![
        ("type", Value::from("notification")),
        (
            "notification",
            object(vec![
                ("subscription", object(vec![("id", Value::from(id))])),
                ("pubsub", Value::from(payload.to_string())),
            ]),
        ),
    ])
    .to_string()
}

/// A welcomed session that tracks the users, with the identifiers of the subscriptions to the
/// topics.
fn live_session(users: Vec<User>) -> (Session, Vec<(String, String)>) {
    let mut session = Session::new(true, true, 0, 7);
    let ids: Vec<u64> = users.iter().map(|user| user.channel_id).collect();
    assert!(session.sync(&ids, Ok(users)).is_empty());
    session.on_connected(0);
    let effects = session.handle_message(&welcome(15), 0, STAMP);
    let topics: Vec<(String, String)> = sent(&effects)
        .iter()
        .map(|message| {
            (
                message["subscribe"]["pubsub"]["topic"].as_str().expect("topic").to_owned(),
                message["subscribe"]["id"].as_str().expect("id").to_owned(),
            )
        })
        .collect();
    (session, topics)
}

fn id_of(topics: &[(String, String)], topic: &str) -> String {
    topics
        .iter()
        .find(|(name, _)| name == topic)
        .map(|(_, id)| id.clone())
        .expect("topic is subscribed to")
}

fn accept(session: &mut Session, topics: &[(String, String)], topic: &str) -> String {
    let id = id_of(topics, topic);
    session.handle_message(&response(&id, "ok"), 0, STAMP);
    id
}

#[test]
fn a_login_is_looked_up_once() {
    let mut session = Session::new(true, true, 0, 1);
    let effects = session.on_command(Command::AddChannel("alice".to_owned()), STAMP);
    assert!(matches!(&effects[..], [Effect::FetchLogin(login)] if login == "alice"));
    let effects = session.finish_add_channel(
        "alice".to_owned(),
        Ok(vec![user(1, "Alice")]),
        STAMP,
    );
    assert!(matches!(&effects[..], [Effect::Refresh]));
    let effects = session.on_command(Command::AddChannel("ALICE".to_owned()), STAMP);
    assert!(effects.is_empty());
    let status = session.status(None);
    assert_eq!(status.channels.len(), 1);
    assert_eq!(status.channels[0].channel_id, 1);
    assert!(!status.connected);
}

#[test]
fn an_unknown_login_is_reported_and_pruned() {
    let mut session = Session::new(true, true, 0, 1);
    let effects = session.finish_add_channel("typo".to_owned(), Ok(Vec::new()), STAMP);
    assert_eq!(
        statuses(&effects)[0].error.as_deref(),
        Some("channel typo not found")
    );
    assert!(matches!(&effects[1], Effect::PruneLogin(login) if login == "typo"));
    // The last answer counts, and it must have the login.
    let effects = session.finish_add_channel(
        "alice".to_owned(),
        Ok(vec![user(1, "alice"), user(2, "bob")]),
        STAMP,
    );
    assert_eq!(
        statuses(&effects)[0].error.as_deref(),
        Some("channel alice not found")
    );
}

#[test]
fn a_failed_lookup_is_reported() {
    let mut session = Session::new(true, true, 0, 1);
    let effects =
        session.finish_add_channel("alice".to_owned(), Err("timed out".to_owned()), STAMP);
    assert_eq!(effects.len(), 1);
    assert_eq!(
        statuses(&effects)[0].error.as_deref(),
        Some("failed to fetch alice: timed out")
    );
}

#[test]
fn settings_and_channels_are_looked_up_before_connecting() {
    let mut session = Session::new(true, true, 0, 1);
    let none = settings_with(&[]);
    assert!(!session.has_work(&none));
    assert!(!session.should_connect(&none, 0));
    let config = settings_with(&[3, 4]);
    assert!(session.should_connect(&config, 0));
    session.finish_add_channel("alice".to_owned(), Ok(vec![user(4, "alice")]), STAMP);
    session.finish_add_channel("bob".to_owned(), Ok(vec![user(9, "bob")]), STAMP);
    assert_eq!(session.connect_ids(&config), [3, 4, 9]);
    assert!(session.has_work(&none));
    session.on_connected(5);
    assert!(!session.should_connect(&config, 5));
}

#[test]
fn channels_that_are_gone_are_dropped() {
    let mut session = Session::new(true, true, 0, 1);
    session.finish_add_channel("alice".to_owned(), Ok(vec![user(1, "alice")]), STAMP);
    session.finish_add_channel("bob".to_owned(), Ok(vec![user(2, "bob")]), STAMP);
    let effects = session.sync(&vec![1, 2, 3], Ok(vec![user(2, "bob")]));
    assert_eq!(
        statuses(&effects)[0].error.as_deref(),
        Some("a channel no longer resolves and was removed")
    );
    assert!(matches!(&effects[1], Effect::PruneIds(ids) if ids[..] == [1, 3]));
    let status = session.status(None);
    assert_eq!(status.channels.len(), 1);
    assert_eq!(status.channels[0].login, "bob");
}

#[test]
fn a_failed_lookup_still_registers_topics() {
    let mut session = Session::new(true, true, 0, 1);
    assert!(session.sync(&vec![1], Err("offline".to_owned())).is_empty());
    session.on_connected(0);
    let effects = session.handle_message(&welcome(15), 0, STAMP);
    assert_eq!(sent(&effects).len(), 2);
}

#[test]
fn removing_a_channel_that_was_never_found_ends_its_subscriptions() {
    let mut session = Session::new(true, true, 0, 1);
    session.sync(&vec![1, 2], Err("offline".to_owned()));
    session.on_connected(0);
    let welcomed = session.handle_message(&welcome(15), 0, STAMP);
    let subscribed: Vec<String> = sent(&welcomed)
        .iter()
        .filter(|message| {
            let topic = message["subscribe"]["pubsub"]["topic"].as_str().expect("topic");
            topic.ends_with(".1")
        })
        .map(|message| message["subscribe"]["id"].as_str().expect("id").to_owned())
        .collect();
    let effects = session.on_command(Command::RemoveChannel(1), STAMP);
    assert!(matches!(effects.last(), Some(Effect::Refresh)));
    let messages = sent(&effects);
    assert_eq!(messages.len(), 2);
    for message in &messages {
        assert_eq!(message["type"], Value::from("unsubscribe"));
        let id = message["unsubscribe"]["id"].as_str().expect("id");
        assert!(subscribed.iter().any(|subscription| subscription == id));
    }
    // A later welcome subscribes to the other channel alone, and a second removal sends nothing.
    assert_eq!(sent(&session.handle_message(&welcome(15), 0, STAMP)).len(), 2);
    let effects = session.on_command(Command::RemoveChannel(1), STAMP);
    assert!(matches!(&effects[..], [Effect::Refresh]));
}

#[test]
fn nothing_to_connect_for() {
    let mut session = Session::new(true, true, 0, 1);
    let effects = session.begin_connect(0);
    assert_eq!(
        statuses(&effects)[0].error.as_deref(),
        Some("no channels found for the configured logins")
    );
    let config = settings_with(&[1]);
    assert!(!session.should_connect(&config, SECOND / 2 - 1));
    assert!(session.should_connect(&config, SECOND / 2));
    session.sync(&vec![1], Ok(vec![user(1, "alice")]));
    assert!(matches!(&session.begin_connect(SECOND)[..], [Effect::Connect]));
}

#[test]
fn waiting_doubles_up_to_15_seconds() {
    let mut session = Session::new(true, true, 0, 1);
    let config = settings_with(&[1]);
    let mut waits = Vec::new();
    for _ in 0..12 {
        session.on_disconnect(0);
        let mut wait = 0;
        while !session.should_connect(&config, wait) {
            wait += SECOND / 2;
        }
        waits.push(wait);
    }
    let half = SECOND / 2;
    assert_eq!(waits[..6], [half, 2 * half, 4 * half, 8 * half, 16 * half, 30 * half]);
    assert!(waits[6..].iter().all(|wait| *wait == 15 * SECOND));
}

#[test]
fn a_welcome_subscribes_to_everything() {
    let mut session = Session::new(true, false, 0, 7);
    session.sync(&vec![1, 2], Ok(vec![user(1, "alice"), user(2, "bob")]));
    session.on_connected(0);
    let effects = session.handle_message(&welcome(30), 1, STAMP);
    let shown = toasts(&effects);
    assert_eq!(shown.len(), 1);
    assert_eq!(shown[0].summary, "Hermes connected");
    assert_eq!(shown[0].body, "watching 2 channel(s)");
    assert!(!shown[0].sound);
    assert!(statuses(&effects)[0].connected);
    let messages = sent(&effects);
    assert_eq!(messages.len(), 4);
    let mut topics: Vec<&str> = messages
        .iter()
        .filter_map(|message| message["subscribe"]["pubsub"]["topic"].as_str())
        .collect();
    topics.sort_unstable();
    assert_eq!(
        topics,
        [
            "broadcast-settings-update.1",
            "broadcast-settings-update.2",
            "video-playback-by-id.1",
            "video-playback-by-id.2",
        ]
    );
    for message in &messages {
        assert_eq!(message["type"], Value::from("subscribe"));
        assert_eq!(message["subscribe"]["type"], Value::from("pubsub"));
        assert_eq!(message["timestamp"], Value::from(STAMP));
        assert_eq!(message["id"].as_str().map(str::len), Some(21));
    }
}

#[test]
fn subscriptions_keep_their_identifiers_over_reconnects() {
    let (mut session, topics) = live_session(vec![user(1, "alice")]);
    accept(&mut session, &topics, "video-playback-by-id.1");
    let effects = session.on_disconnect(SECOND);
    assert!(matches!(effects[0], Effect::Close));
    assert!(!statuses(&effects)[0].connected);
    session.on_connected(2 * SECOND);
    let effects = session.handle_message(&welcome(15), 2 * SECOND, STAMP);
    assert_eq!(toasts(&effects)[0].summary, "Hermes reconnected");
    // The state before the new subscriptions is shown first.
    assert!(statuses(&effects)[0].channels[0].live_status == SubStatus::Connected);
    for message in sent(&effects) {
        let topic = message["subscribe"]["pubsub"]["topic"].as_str().expect("topic");
        assert_eq!(
            message["subscribe"]["id"].as_str(),
            Some(id_of(&topics, topic).as_str())
        );
    }
    assert!(session.status(None).channels[0].live_status == SubStatus::Pending);
}

#[test]
fn answers_are_shown() {
    let (mut session, topics) = live_session(vec![user(1, "alice")]);
    let id = id_of(&topics, "broadcast-settings-update.1");
    let effects = session.handle_message(&response(&id, "ok"), 0, STAMP);
    assert!(statuses(&effects)[0].channels[0].title_status == SubStatus::Connected);
    let effects = session.handle_message(&response(&id, "error"), 0, STAMP);
    assert!(statuses(&effects)[0].channels[0].title_status == SubStatus::Failed);
    assert!(session
        .handle_message(&response("000000000000000000000", "ok"), 0, STAMP)
        .is_empty());
    assert!(session.handle_message(&response("short", "ok"), 0, STAMP).is_empty());
}

#[test]
fn a_channel_added_to_a_live_session_is_subscribed_to_at_once() {
    let (mut session, _) = live_session(vec![user(1, "alice")]);
    let effects = session.finish_add_channel("bob".to_owned(), Ok(vec![user(2, "bob")]), STAMP);
    let messages = sent(&effects);
    assert_eq!(messages.len(), 2);
    assert_eq!(
        messages[0]["subscribe"]["pubsub"]["topic"],
        Value::from("broadcast-settings-update.2")
    );
    assert_eq!(
        messages[1]["subscribe"]["pubsub"]["topic"],
        Value::from("video-playback-by-id.2")
    );
    assert!(matches!(effects[2], Effect::Refresh));
}

#[test]
fn a_removed_channel_is_unsubscribed_from() {
    let (mut session, topics) = live_session(vec![user(1, "alice"), user(2, "bob")]);
    let effects = session.on_command(Command::RemoveChannel(1), STAMP);
    let messages = sent(&effects);
    assert_eq!(messages.len(), 2);
    assert_eq!(messages[0]["type"], Value::from("unsubscribe"));
    assert_eq!(
        messages[0]["unsubscribe"]["id"].as_str(),
        Some(id_of(&topics, "broadcast-settings-update.1").as_str())
    );
    assert_eq!(
        messages[1]["unsubscribe"]["id"].as_str(),
        Some(id_of(&topics, "video-playback-by-id.1").as_str())
    );
    assert!(matches!(effects[2], Effect::Refresh));
    assert_eq!(session.status(None).channels.len(), 1);
    assert!(matches!(
        &session.on_command(Command::RemoveChannel(1), STAMP)[..],
        [Effect::Refresh]
    ));
}

#[test]
fn a_stream_that_starts_is_announced() {
    let (mut session, topics) = live_session(vec![user(1, "alice")]);
    let up = object(vec![("type", Value::from("stream-up"))]);
    let id = id_of(&topics, "video-playback-by-id.1");
    // Nothing happens before the subscription is accepted.
    assert!(session.handle_message(&notification(&id, &up), 0, STAMP).is_empty());
    accept(&mut session, &topics, "video-playback-by-id.1");
    let effects = session.handle_message(&notification(&id, &up), 0, STAMP);
    assert_eq!(effects.len(), 3);
    assert!(matches!(effects[0], Effect::Status(_)));
    let toast = toasts(&effects)[0];
    assert_eq!(toast.summary, "[ALICE] is LIVE");
    assert_eq!(toast.body, "old title — chess");
    assert_eq!(toast.avatar.as_deref(), Some("https://cdn/alice.png"));
    assert_eq!(toast.login.as_deref(), Some("alice"));
    assert!(toast.sound);
    assert!(matches!(
        effects[2],
        Effect::FetchStream { channel_id: 1, notified: true }
    ));
    let effects = session.finish_stream_up(1, true, Ok(vec![user(2, "bob"), user(1, "alice")]));
    assert!(matches!(&effects[..], [Effect::Status(_)]));
    // A stream that ends is not announced.
    let down = object(vec![("type", Value::from("stream-down"))]);
    assert!(session.handle_message(&notification(&id, &down), 0, STAMP).is_empty());
    let count = object(vec![("type", Value::from("viewcount"))]);
    assert!(session.handle_message(&notification(&id, &count), 0, STAMP).is_empty());
}

#[test]
fn an_unknown_channel_is_announced_once_it_is_looked_up() {
    let mut session = Session::new(true, true, 0, 7);
    session.sync(&vec![1], Err("offline".to_owned()));
    session.on_connected(0);
    let effects = session.handle_message(&welcome(15), 0, STAMP);
    let live = sent(&effects)
        .iter()
        .find(|message| {
            message["subscribe"]["pubsub"]["topic"] == Value::from("video-playback-by-id.1")
        })
        .and_then(|message| message["subscribe"]["id"].as_str().map(str::to_owned))
        .expect("topic is subscribed to");
    session.handle_message(&response(&live, "ok"), 0, STAMP);
    let up = object(vec![("type", Value::from("stream-up"))]);
    let effects = session.handle_message(&notification(&live, &up), 0, STAMP);
    assert_eq!(effects.len(), 2);
    assert!(matches!(
        effects[1],
        Effect::FetchStream { channel_id: 1, notified: false }
    ));
    let effects = session.finish_stream_up(1, false, Ok(vec![user(1, "alice")]));
    assert_eq!(toasts(&effects)[0].summary, "[ALICE] is LIVE");
    assert_eq!(statuses(&effects)[0].channels.len(), 1);
    assert!(session.finish_stream_up(1, false, Ok(Vec::new())).is_empty());
    assert!(session.finish_stream_up(1, false, Err("offline".to_owned())).is_empty());
}

fn update(status: &str, old_status: &str, game: &str, old_game: &str) -> Value {
    object(vec![
        ("status", Value::from(status)),
        ("old_status", Value::from(old_status)),
        ("game", Value::from(game)),
        ("old_game", Value::from(old_game)),
        ("game_id", Value::from(6)),
    ])
}

#[test]
fn a_new_title_and_game_are_announced() {
    let (mut session, topics) = live_session(vec![user(1, "alice")]);
    let id = accept(&mut session, &topics, "broadcast-settings-update.1");
    let both = update("new title", "old title", "go", "chess");
    let effects = session.handle_message(&notification(&id, &both), 0, STAMP);
    assert_eq!(toasts(&effects)[0].summary, "[ALICE] title & game changed");
    assert_eq!(toasts(&effects)[0].body, "old title → new title\nchess → go");
    // The same again changes nothing.
    assert!(session.handle_message(&notification(&id, &both), 0, STAMP).is_empty());
    let title = update("third", "new title", "go", "go");
    let effects = session.handle_message(&notification(&id, &title), 0, STAMP);
    assert_eq!(toasts(&effects)[0].summary, "[ALICE] title changed");
    assert_eq!(toasts(&effects)[0].body, "new title → third");
    let game = update("third", "third", "", "go");
    let effects = session.handle_message(&notification(&id, &game), 0, STAMP);
    assert_eq!(toasts(&effects)[0].summary, "[ALICE] game changed");
    assert_eq!(toasts(&effects)[0].body, "go → ");
}

#[test]
fn the_same_update_is_announced_once() {
    let (mut session, topics) = live_session(vec![user(1, "alice")]);
    let id = accept(&mut session, &topics, "broadcast-settings-update.1");
    let cleared = update("", "old title", "chess", "chess");
    let effects = session.handle_message(&notification(&id, &cleared), 0, STAMP);
    assert_eq!(toasts(&effects)[0].summary, "[ALICE] title changed");
    assert_eq!(toasts(&effects)[0].body, "old title → ");
    assert!(session.handle_message(&notification(&id, &cleared), 0, STAMP).is_empty());
}

#[test]
fn a_game_without_a_number_is_announced() {
    fn unnumbered(status: &str, game: &str, old_game: &str) -> Value {
        object(vec![
            ("status", Value::from(status)),
            ("old_status", Value::from("old title")),
            ("game", Value::from(game)),
            ("old_game", Value::from(old_game)),
            ("game_id", Value::from("6")),
        ])
    }
    let mut alice = user(1, "alice");
    alice.game = None;
    let (mut session, topics) = live_session(vec![alice]);
    let id = accept(&mut session, &topics, "broadcast-settings-update.1");
    let first = notification(&id, &unnumbered("old title", "go", ""));
    let effects = session.handle_message(&first, 0, STAMP);
    assert_eq!(toasts(&effects)[0].summary, "[ALICE] game changed");
    assert_eq!(toasts(&effects)[0].body, " → go");
    // Nothing was kept, so another one is announced too, and beside a new title.
    let second = notification(&id, &unnumbered("old title", "poker", "go"));
    let effects = session.handle_message(&second, 0, STAMP);
    assert_eq!(toasts(&effects)[0].body, "go → poker");
    let third = notification(&id, &unnumbered("new title", "go", "poker"));
    let effects = session.handle_message(&third, 0, STAMP);
    assert_eq!(toasts(&effects)[0].summary, "[ALICE] title & game changed");
    assert_eq!(toasts(&effects)[0].body, "old title → new title\npoker → go");
}

#[test]
fn titles_are_announced_only_if_wanted_and_offline() {
    let (mut session, topics) = live_session(vec![user(1, "alice")]);
    let title = accept(&mut session, &topics, "broadcast-settings-update.1");
    let live = accept(&mut session, &topics, "video-playback-by-id.1");
    assert!(session
        .on_command(Command::SetNotifyTitleChanges(false), STAMP)
        .is_empty());
    let first = update("a", "old title", "chess", "chess");
    assert!(session.handle_message(&notification(&title, &first), 0, STAMP).is_empty());
    session.on_command(Command::SetNotifyTitleChanges(true), STAMP);
    let up = object(vec![("type", Value::from("stream-up"))]);
    session.handle_message(&notification(&live, &up), 0, STAMP);
    let second = update("b", "a", "chess", "chess");
    assert!(session.handle_message(&notification(&title, &second), 0, STAMP).is_empty());
    let down = object(vec![("type", Value::from("stream-down"))]);
    session.handle_message(&notification(&live, &down), 0, STAMP);
    session.on_command(Command::SetSound(false), STAMP);
    let third = update("c", "b", "chess", "chess");
    let effects = session.handle_message(&notification(&title, &third), 0, STAMP);
    assert!(!toasts(&effects)[0].sound);
}

#[test]
fn silence_ends_a_connection() {
    let (mut session, _) = live_session(vec![user(1, "alice")]);
    assert!(session.on_tick(30 * SECOND).is_empty());
    // Any text is a sign of life, even a blank one.
    assert!(session.handle_message("  ", 20 * SECOND, STAMP).is_empty());
    assert!(session.handle_message("no JSON", 21 * SECOND, STAMP).is_empty());
    assert!(session.on_tick(51 * SECOND).is_empty());
    let effects = session.on_tick(51 * SECOND + 1);
    assert!(matches!(effects[0], Effect::Close));
    assert!(session.on_tick(100 * SECOND).is_empty());
}

#[test]
fn a_missing_welcome_ends_a_connection() {
    let mut session = Session::new(true, true, 0, 1);
    session.on_connected(SECOND);
    assert!(session.on_tick(11 * SECOND).is_empty());
    assert!(!session.on_tick(11 * SECOND + 1).is_empty());
}

#[test]
fn keepalive_defaults_to_15_seconds() {
    let mut session = Session::new(true, true, 0, 1);
    session.on_connected(0);
    let message = object(vec![("type", Value::from("welcome"))]).to_string();
    session.handle_message(&message, 0, STAMP);
    assert!(session.on_tick(30 * SECOND).is_empty());
    assert!(!session.on_tick(30 * SECOND + 1).is_empty());
    assert!(session
        .handle_message(&object(vec![("type", Value::from("keepalive"))]).to_string(), 0, STAMP)
        .is_empty());
}

#[test]
fn channels_are_shown_by_login() {
    let (session, _) = live_session(vec![user(1, "zoe"), user(2, "bob"), user(3, "alice")]);
    let status = session.status(Some("an error".to_owned()));
    let logins: Vec<&str> = status.channels.iter().map(|row| row.login.as_str()).collect();
    assert_eq!(logins, ["alice", "bob", "zoe"]);
    assert_eq!(status.error.as_deref(), Some("an error"));
    assert!(status.connected);
}

#[test]
fn another_attempt_needs_room() {
    let session = Session::new(true, true, 0, 1);
    assert!(session.can_schedule(0));
    assert!(session.can_schedule(u64::MAX - 15 * SECOND));
    assert!(!session.can_schedule(u64::MAX - 15 * SECOND + 1));
}

#[test]
fn every_event_takes_its_own_way() {
    let (mut session, topics) = live_session(vec![user(1, "alice")]);
    accept(&mut session, &topics, "video-playback-by-id.1");
    assert!(session.on_event(Event::Ignored, 0, STAMP).is_empty());
    assert!(session.on_event(Event::Tick, 0, STAMP).is_empty());

    let asked = session.on_event(Event::Command(Command::AddChannel("bob".to_owned())), 0, STAMP);
    assert!(matches!(&asked[..], [Effect::FetchLogin(login)] if login == "bob"));

    let up = object(vec![("type", Value::from("stream-up"))]);
    let id = id_of(&topics, "video-playback-by-id.1");
    let heard = session.on_event(Event::Text(notification(&id, &up)), 0, STAMP);
    assert_eq!(toasts(&heard)[0].summary, "[ALICE] is LIVE");

    assert!(!session.should_connect(&settings_with(&[]), 0));
    session.on_event(Event::Closed, 0, STAMP);
    assert!(!session.should_connect(&settings_with(&[]), SECOND / 2 - 1));
    assert!(session.should_connect(&settings_with(&[]), SECOND / 2));
}
