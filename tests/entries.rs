use image_relay::commands::{command_reply, is_command, local_mode_after, parse_command, Command};
use image_relay::inline::inline_entries;
use image_relay::matcher::{find_matching_images, AssetFile};

#[test]
fn inline_entries_use_encoded_raw_urls() {
    let matches = vec![
        (AssetFile::new("src/assets/my pics/cat 1.gif".to_string(), "cat 1.gif".to_string()), 1000),
        (AssetFile::new("elsewhere/cat.png".to_string(), "cat.png".to_string()), 900),
        (AssetFile::new("src/assets/dog.png".to_string(), "dog.png".to_string()), 50),
    ];
    let e = inline_entries(&matches);
    assert_eq!(e.len(), 2);
    assert_eq!(e[0].title, "cat 1");
    assert_eq!(
        e[0].url,
        "https://raw.githubusercontent.com/akira02/rust-tg.jpg/main/src/assets/my%20pics/cat%201.gif"
    );
    assert!(e[0].animated);
    assert_eq!(e[1].title, "dog");
    assert!(!e[1].animated);
}

#[test]
fn inline_entries_take_the_first_ten() {
    let corpus: Vec<AssetFile> = (0..14)
        .map(|i| AssetFile::new(format!("assets/cat{}.jpg", i), format!("cat{}.jpg", i)))
        .collect();
    let matches = find_matching_images("cat", &corpus);
    assert_eq!(matches.len(), 14);
    assert_eq!(inline_entries(&matches).len(), 10);
}

#[test]
fn commands_switch_and_report_the_local_mode() {
    assert!(is_command("/status"));
    assert!(!is_command("cat.jpg"));
    assert_eq!(parse_command("/start"), Some(Command::Start));
    assert_eq!(parse_command("/enable_mygo"), Some(Command::EnableLocal));
    assert_eq!(parse_command("/disable_mygo"), Some(Command::DisableLocal));
    assert_eq!(parse_command("/status"), Some(Command::Status));
    assert_eq!(parse_command("/other"), None);
    assert!(local_mode_after(Command::EnableLocal, false));
    assert!(!local_mode_after(Command::DisableLocal, true));
    assert!(local_mode_after(Command::Status, true));
    assert_eq!(command_reply(Command::Status, true), "Mygo mode is currently enabled.");
    assert_eq!(command_reply(Command::Status, false), "Mygo mode is currently disabled.");
    assert!(command_reply(Command::Start, false).starts_with("Welcome!"));
}
