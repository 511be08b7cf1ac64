use siphon::config::{Channel, Config};
use siphon::hermes::{ChannelStatus, SubStatus};
use siphon::notifier::{avatar_file_name, channel_url, sound_name, Toast};
use siphon::state::{FrameState, StatusSnapshot, UiIntent};
use siphon::tray::{click_action, load_icon_rgba, menu_action, Button, TrayAction};
use siphon::window::{
    connection_text, empty_label, newest, sub_badge, submit_add, table, Lifecycle, Tone, WindowCmd,
};

fn frame() -> FrameState {
    FrameState {
        config: Config {
            channels: vec![
                Channel {
                    login: "alice".to_owned(),
                    id: 1,
                    display_name: Some("Alice".to_owned()),
                },
                Channel {
                    login: "bob".to_owned(),
                    id: 2,
                    display_name: Some("Bob".to_owned()),
                },
                Channel {
                    login: "carol".to_owned(),
                    id: 3,
                    display_name: None,
                },
            ],
            ..Config::default()
        },
        status: Some(StatusSnapshot {
            connected: false,
            error: None,
            channels: vec![ChannelStatus {
                channel_id: 1,
                login: "alice".to_owned(),
                display_name: "ALICE".to_owned(),
                title_status: SubStatus::Failed,
                live_status: SubStatus::Connected,
            }],
            pending_adds: vec!["dave".to_owned()],
        }),
        error: String::new(),
    }
}

#[test]
fn rows_of_the_table() {
    let rows = table(&frame());
    assert_eq!(rows.len(), 4);
    let names: Vec<&str> = rows.iter().map(|row| row.name.as_str()).collect();
    assert_eq!(names, ["ALICE", "Bob", "carol", "dave"]);
    assert!(rows[0].live == SubStatus::Connected);
    assert!(rows[0].title == SubStatus::Failed);
    assert!(rows[1].live == SubStatus::Pending);
    let stripes: Vec<bool> = rows.iter().map(|row| row.striped).collect();
    assert_eq!(stripes, [true, false, true, false]);
    let removable: Vec<Option<u64>> = rows.iter().map(|row| row.remove).collect();
    assert_eq!(removable, [Some(1), Some(2), Some(3), None]);
    assert!(empty_label(&rows).is_none());
}

#[test]
fn an_empty_table_has_a_label() {
    let rows = table(&FrameState {
        config: Config::default(),
        status: None,
        error: String::new(),
    });
    assert_eq!(
        empty_label(&rows),
        Some("No channels configured. Add a streamer below.")
    );
}

#[test]
fn the_line_about_the_connection() {
    assert_eq!(connection_text(&None), ("Connecting…".to_owned(), Tone::Gray));
    let mut status = frame().status;
    assert_eq!(connection_text(&status), ("Connecting…".to_owned(), Tone::Red));
    if let Some(snapshot) = status.as_mut() {
        snapshot.error = Some("no network".to_owned());
    }
    assert_eq!(connection_text(&status), ("no network".to_owned(), Tone::Red));
    if let Some(snapshot) = status.as_mut() {
        snapshot.connected = true;
    }
    assert_eq!(connection_text(&status), ("Connected".to_owned(), Tone::Green));
}

#[test]
fn badges() {
    assert_eq!(sub_badge(SubStatus::Pending), ("Pending", Tone::Gray));
    assert_eq!(sub_badge(SubStatus::Connected), ("Connected", Tone::Green));
    assert_eq!(sub_badge(SubStatus::Failed), ("Failed", Tone::Red));
}

#[test]
fn a_line_that_is_handed_in_is_emptied() {
    let mut line = "  Alice ".to_owned();
    assert!(matches!(
        submit_add(&mut line),
        Some(UiIntent::AddLogin(login)) if login == "Alice"
    ));
    assert!(line.is_empty());
    let mut blank = " \t".to_owned();
    assert!(submit_add(&mut blank).is_none());
    assert!(blank.is_empty());
}

#[test]
fn closing_hides_in_the_tray() {
    let mut life = Lifecycle::new(true);
    assert_eq!(
        life.on_close_requested(),
        [WindowCmd::CancelClose, WindowCmd::Hide]
    );
    assert_eq!(life.on_tray(TrayAction::Show), WindowCmd::Show);
    assert!(!life.quit_requested);
    assert_eq!(life.on_tray(TrayAction::Quit), WindowCmd::Close);
    assert!(life.quit_requested);
    assert!(life.on_close_requested().is_empty());
}

#[test]
fn without_a_tray_closing_quits() {
    let mut life = Lifecycle::new(false);
    assert_eq!(
        life.on_close_requested(),
        [WindowCmd::CancelClose, WindowCmd::Close]
    );
    assert!(life.quit_requested);
}

#[test]
fn only_the_newest_frame_counts() {
    assert!(newest(Vec::new()).is_none());
    let mut last = frame();
    last.error = "last".to_owned();
    let shown = newest(vec![frame(), last]).expect("a frame");
    assert_eq!(shown.error, "last");
}

#[test]
fn clicks_on_the_tray() {
    assert_eq!(menu_action("open"), Some(TrayAction::Show));
    assert_eq!(menu_action("quit"), Some(TrayAction::Quit));
    assert_eq!(menu_action("other"), None);
    assert_eq!(click_action(Button::Left), Some(TrayAction::Show));
    assert_eq!(click_action(Button::Right), None);
    assert_eq!(click_action(Button::Middle), None);
}

/// A picture of one red pixel.
const RED_PIXEL: [u8; 70] = [
    0x89, 0x50, 0x4e, 0x47, 0x0d, 0x0a, 0x1a, 0x0a, 0x00, 0x00, 0x00, 0x0d, 0x49, 0x48, 0x44, 0x52,
    0x00, 0x00, 0x00, 0x01, 0x00, 0x00, 0x00, 0x01, 0x08, 0x06, 0x00, 0x00, 0x00, 0x1f, 0x15, 0xc4,
    0x89, 0x00, 0x00, 0x00, 0x0d, 0x49, 0x44, 0x41, 0x54, 0x78, 0xda, 0x63, 0xf8, 0xcf, 0xc0, 0xf0,
    0x1f, 0x00, 0x05, 0x00, 0x01, 0xff, 0x56, 0xc7, 0x2f, 0x0d, 0x00, 0x00, 0x00, 0x00, 0x49, 0x45,
    0x4e, 0x44, 0xae, 0x42, 0x60, 0x82,
];

#[test]
fn the_icon_is_decoded() {
    let (pixels, width, height) = load_icon_rgba(&RED_PIXEL).expect("a picture");
    assert_eq!((width, height), (1, 1));
    assert_eq!(pixels, [255, 0, 0, 255]);
    assert!(load_icon_rgba(b"no picture").is_err());
}

#[test]
fn pictures_and_pages() {
    assert_eq!(
        avatar_file_name("https://cdn/a/b-70x70.png").as_deref(),
        Some("b-70x70.png")
    );
    assert_eq!(avatar_file_name("https://cdn/a/"), None);
    assert_eq!(avatar_file_name(""), None);
    assert_eq!(avatar_file_name("plain").as_deref(), Some("plain"));
    assert_eq!(channel_url("alice"), "https://www.twitch.tv/alice");
    assert_eq!(sound_name(true), "Default");
    assert_eq!(sound_name(false), "Silent");
}

#[test]
fn a_toast_gets_its_picture() {
    let toast = Toast {
        summary: "s".to_owned(),
        body: "b".to_owned(),
        sound: true,
        avatar: Some("https://cdn/x.png".to_owned()),
        login: Some("alice".to_owned()),
    };
    let job = toast.into_job(Some("/tmp/x.png".to_owned()));
    assert_eq!(job.summary, "s");
    assert_eq!(job.body, "b");
    assert!(job.sound);
    assert_eq!(job.image.as_deref(), Some("/tmp/x.png"));
    assert_eq!(job.login.as_deref(), Some("alice"));
}
