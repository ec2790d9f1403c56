use oxide::media::{audio_extension, extension, is_supported_audio_path, SUPPORTED_EXTENSIONS};
use std::path::Path;

#[test]
fn every_listed_extension_is_supported() {
    assert_eq!(SUPPORTED_EXTENSIONS, ["m4a", "mp3", "ogg", "flac", "opus", "wv", "ape", "wav"]);
    for ext in SUPPORTED_EXTENSIONS {
        assert!(is_supported_audio_path(format!("song.{}", ext).as_bytes()));
        assert!(is_supported_audio_path(format!("song.{}", ext.to_ascii_uppercase()).as_bytes()));
    }
}

#[test]
fn other_names_are_not_supported() {
    for name in [
        "", "mp3", ".mp3", "song", "song.", "song.txt", "song.mp3.bak", "song.mp33", "song.mp",
        "song.dsf", "..", "song. mp3",
    ] {
        assert!(!is_supported_audio_path(name.as_bytes()), "{:?}", name);
    }
    assert!(!is_supported_audio_path(b"song.\xff\xfe"));
    assert!(!is_supported_audio_path("song.\u{212a}".as_bytes()));
}

#[test]
fn extension_is_lower_case() {
    assert_eq!(audio_extension(b"a.b.FlAc"), Some("flac".to_string()));
    assert_eq!(audio_extension(b"\xff\xff.WAV"), Some("wav".to_string()));
    assert_eq!(audio_extension(b"a.flac.b"), None);
}

#[test]
fn extension_is_that_of_the_path() {
    for name in [
        "a.mp3", "a.b.c", ".a", ".a.b", "a.", "a", "a..", "...a", "..a", ".", "..", "a b.c d",
        "\u{e9}.\u{e9}",
    ] {
        let expected = Path::new(name).extension().map(|ext| ext.as_encoded_bytes());
        assert_eq!(extension(name.as_bytes()), expected, "{:?}", name);
    }
}

#[test]
fn case_of_a_name_does_not_matter() {
    for name in ["Song.Mp3", "SONG.TXT", "x.OPUS", ".WAV"] {
        assert_eq!(
            is_supported_audio_path(name.as_bytes()),
            is_supported_audio_path(name.to_ascii_lowercase().as_bytes())
        );
    }
}
