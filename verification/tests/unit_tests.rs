//! Unit tests for the mapper, the filename classifiers, the command
//! coalescing and the sleep default.

use polaris_index::{
    coalesce, get_audio_format, is_image, sleep_duration, AudioFormat, Command, Db, LoopAction,
    MiscSettings, MountPoint, Vfs,
};

fn mapper() -> Vfs {
    Vfs::new(vec![
        MountPoint { name: "root".to_string(), real: "test/collection".to_string() },
        MountPoint { name: "other".to_string(), real: "elsewhere".to_string() },
    ])
}

#[test]
fn test_get_audio_format() {
    assert_eq!(get_audio_format("animals/\u{1f437}/my\u{1f416}file.jpg"), None);
    assert_eq!(
        get_audio_format("animals/\u{1f437}/my\u{1f416}file.flac"),
        Some(AudioFormat::FLAC)
    );
}

#[test]
fn test_is_image() {
    assert!(!is_image("animals/\u{1f437}/my\u{1f416}file.mp3"));
    assert!(is_image("animals/\u{1f437}/my\u{1f416}file.jpg"));
}

#[test]
fn test_audio_format_cases() {
    assert_eq!(get_audio_format("x/a.MP3"), Some(AudioFormat::MP3));
    assert_eq!(get_audio_format("x/a.m4a"), Some(AudioFormat::MP4));
    assert_eq!(get_audio_format("x/a.mpc"), Some(AudioFormat::MPC));
    assert_eq!(get_audio_format("x/a.OGG"), Some(AudioFormat::OGG));
    assert_eq!(get_audio_format("x/noext"), None);
    assert_eq!(get_audio_format("x/.hidden"), None);
}

#[test]
fn test_virtual_to_real() {
    let vfs = mapper();
    assert_eq!(
        vfs.virtual_to_real("root/Khemmis/Hunted").unwrap(),
        "test/collection/Khemmis/Hunted"
    );
    assert_eq!(vfs.virtual_to_real("root").unwrap(), "test/collection");
    assert_eq!(
        vfs.virtual_to_real("nowhere/x").unwrap_err(),
        polaris_index::Error::UnknownMount
    );
    assert_eq!(vfs.virtual_to_real("").unwrap_err(), polaris_index::Error::UnknownMount);
}

#[test]
fn test_real_to_virtual() {
    let vfs = mapper();
    assert_eq!(
        vfs.real_to_virtual("test/collection/Khemmis").unwrap(),
        "root/Khemmis"
    );
    assert_eq!(vfs.real_to_virtual("test/collection").unwrap(), "root");
    // a string prefix that is not a component boundary does not match
    assert_eq!(
        vfs.real_to_virtual("test/collectionX/a").unwrap_err(),
        polaris_index::Error::NotUnderMount
    );
    assert_eq!(vfs.real_to_virtual("elsewhere/song.mp3").unwrap(), "other/song.mp3");
}

#[test]
fn test_coalescing_burst_yields_one_scan() {
    let pending = vec![
        Command::REINDEX,
        Command::REINDEX,
        Command::REINDEX,
        Command::REINDEX,
        Command::REINDEX,
    ];
    assert_eq!(coalesce(&Command::REINDEX, &pending, false), LoopAction::Scan);
    assert_eq!(coalesce(&Command::REINDEX, &Vec::new(), false), LoopAction::Scan);
}

#[test]
fn test_coalescing_exit_terminates() {
    assert_eq!(coalesce(&Command::EXIT, &Vec::new(), false), LoopAction::Terminate);
    let pending = vec![Command::REINDEX, Command::EXIT];
    assert_eq!(coalesce(&Command::REINDEX, &pending, false), LoopAction::Terminate);
    assert_eq!(coalesce(&Command::REINDEX, &Vec::new(), true), LoopAction::Terminate);
}

#[test]
fn test_sleep_duration_default() {
    let db = Db::new(mapper(), None);
    assert_eq!(sleep_duration(&db), 1800);
    let with_settings = Db::new(
        mapper(),
        Some(MiscSettings {
            index_sleep_duration_seconds: 60,
            index_album_art_pattern: "Folder.png".to_string(),
        }),
    );
    assert_eq!(sleep_duration(&with_settings), 60);
}
