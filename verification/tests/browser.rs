//! Browser state: entry classification, expanded-directory bookkeeping, and
//! the device registry.

use volt::blerp::device::{Device, DeviceHandler};
use volt::browser::entry::{is_media_extension, BrowserEntry};
use volt::browser::{Entry, EntryKind, OpenFolder};

#[test]
fn media_extensions() {
    for ext in ["wav", "wave", "mp3", "ogg", "flac", "opus"] {
        assert!(is_media_extension(&ext.to_string()), "{ext} is audio");
    }
    for ext in ["txt", "WAV", "wavx", "", "mp4"] {
        assert!(!is_media_extension(&ext.to_string()), "{ext} is not audio");
    }
}

#[test]
fn classify_directories_files_and_audio() {
    let dir = BrowserEntry::classify("/samples".to_string(), true, None);
    assert!(dir.is_directory());
    assert!(!dir.is_file());
    assert!(!dir.is_audio());
    assert_eq!(dir.path(), "/samples");

    let audio = BrowserEntry::classify(
        "/samples/kick.wav".to_string(),
        false,
        Some("wav".to_string()),
    );
    assert!(audio.is_audio());
    assert!(!audio.is_directory());
    assert_eq!(audio.path(), "/samples/kick.wav");

    let plain = BrowserEntry::classify(
        "/samples/readme.txt".to_string(),
        false,
        Some("txt".to_string()),
    );
    assert!(plain.is_file());

    let bare = BrowserEntry::classify("/samples/LICENSE".to_string(), false, None);
    assert!(bare.is_file());
    assert!(!bare.is_audio());
}

#[test]
fn classify_prefers_directory_over_extension() {
    // a directory named like an audio file is still a directory
    let e = BrowserEntry::classify("/x/strange.wav".to_string(), true, Some("wav".to_string()));
    assert!(e.is_directory());
}

#[test]
fn open_folder_expansion() {
    let mut folder = OpenFolder::new("/samples".to_string());
    assert!(!folder.is_expanded(&"/samples/drums".to_string()));

    folder.expand_directory("/samples/drums".to_string());
    assert!(folder.is_expanded(&"/samples/drums".to_string()));
    assert_eq!(folder.expanded_directories.len(), 1);

    // expanding again keeps a single entry
    folder.expand_directory("/samples/drums".to_string());
    assert_eq!(folder.expanded_directories.len(), 1);

    folder.expand_directory("/samples/keys".to_string());
    assert!(folder.is_expanded(&"/samples/keys".to_string()));
    assert_eq!(folder.expanded_directories.len(), 2);

    folder.collapse_directory(&"/samples/drums".to_string());
    assert!(!folder.is_expanded(&"/samples/drums".to_string()));
    assert!(folder.is_expanded(&"/samples/keys".to_string()));
    assert_eq!(folder.expanded_directories.len(), 1);

    // collapsing something absent changes nothing
    folder.collapse_directory(&"/samples/drums".to_string());
    assert_eq!(folder.expanded_directories.len(), 1);
}

#[test]
fn entries_are_plain_data() {
    let entry = Entry {
        path: "/samples/kick.wav".to_string(),
        kind: EntryKind::Audio,
        indent: 2,
    };
    let copy = entry.clone();
    assert_eq!(entry, copy);
    assert!(EntryKind::Directory < EntryKind::Audio);
    assert!(EntryKind::Audio < EntryKind::File);
}

#[test]
fn device_handler_keeps_insertion_order() {
    let mut handler = DeviceHandler { devices: Vec::new() };
    handler.add_device("out-1".to_string(), Device { name: "Speakers".to_string() });
    handler.add_device("out-2".to_string(), Device { name: "Headphones".to_string() });
    let devices = handler.get_devices();
    assert_eq!(devices.len(), 2);
    assert_eq!(devices[0].id, "out-1");
    assert_eq!(devices[0].device.name, "Speakers");
    assert_eq!(devices[1].id, "out-2");
    assert_eq!(devices[1].device.name, "Headphones");
}
