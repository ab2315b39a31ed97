use plugin_kernel::app_error::AppError;
use plugin_kernel::error::{ErrorCode, PluginError};
use plugin_kernel::track::{is_music_extension, cover_data_url, duration_label, AudioFacts, CoverArt, MusicFile, TrackTags};

#[test]
fn durations_are_zero_padded() {
    assert_eq!(duration_label(0), "00:00");
    assert_eq!(duration_label(65), "01:05");
    assert_eq!(duration_label(600), "10:00");
    assert_eq!(duration_label(6001), "100:01");
}

#[test]
fn cover_is_a_base64_data_url() {
    assert_eq!(cover_data_url(Some("image/png"), b"hi"), "data:image/png;base64,aGk=");
    assert_eq!(cover_data_url(None, &[0xff, 0x00, 0x10]), "data:image/jpeg;base64,/wAQ");
    assert_eq!(cover_data_url(None, &[]), "data:image/jpeg;base64,");
}

#[test]
fn unreadable_file_gets_defaults() {
    let f = MusicFile::assemble(String::from("/m/song.mp3"), Some(String::from("song")), None, None);
    assert_eq!(f.title, "song");
    assert_eq!(f.artist, "Unknown Artist");
    assert_eq!(f.album, "Unknown Album");
    assert_eq!(f.duration_formatted, "00:00");
    assert_eq!(f.display_duration(), "00:00");
    assert_eq!(f.cover_base64, "");
    let g = MusicFile::assemble(String::from("/"), None, None, None);
    assert_eq!(g.title, "Unknown");
}

#[test]
fn tags_and_stream_facts_are_used() {
    let facts = AudioFacts { duration_secs: 125, sample_rate: 44100, bit_rate: 320, channels: 2 };
    let tags = TrackTags {
        title: Some(String::from("Title")),
        artist: None,
        album: Some(String::from("Album")),
        track_number: Some(3),
        cover: Some(CoverArt { mime: None, data: b"hi".to_vec() }),
    };
    let f = MusicFile::assemble(String::from("/m/a.flac"), Some(String::from("a")), Some(facts), Some(tags));
    assert_eq!(f.title, "Title");
    assert_eq!(f.artist, "Unknown Artist");
    assert_eq!(f.album, "Album");
    assert_eq!(f.duration_formatted, "02:05");
    assert_eq!(f.sample_rate, 44100);
    assert_eq!(f.track_number, Some(3));
    assert_eq!(f.cover_base64, "data:image/jpeg;base64,aGk=");
}

#[test]
fn plugin_errors_are_classified_for_the_front_end() {
    let denied = PluginError::permission_denied(String::from("net.fetch")).with_plugin(String::from("p"));
    assert_eq!(
        AppError::from_plugin_error(&denied),
        AppError::PluginPermissionDenied { plugin_id: String::from("p"), permission: String::from("net.fetch") }
    );
    let host = PluginError::permission_denied(String::from("x"));
    let e = AppError::from_plugin_error(&host);
    assert_eq!(e.to_string(), "Plugin '<host>' denied permission x");
    assert_eq!(e.kind(), "pluginPermissionDenied");
    assert_eq!(
        AppError::from_plugin_error(&PluginError::timeout(String::from("slow"))),
        AppError::Io(String::from("[Timeout] slow"))
    );
    assert_eq!(
        AppError::from_plugin_error(&PluginError::not_found(String::from("gone"))),
        AppError::Command(String::from("[NotFound] gone"))
    );
    let other = AppError::from_plugin_error(&PluginError::new(ErrorCode::Panic, String::from("boom")));
    assert_eq!(other, AppError::Plugin(String::from("[Panic] boom")));
    assert_eq!(other.kind(), "plugin");
}

#[test]
fn music_extensions() {
    for ext in ["mp3", "flac", "wav", "ogg", "m4a", "aac"] {
        assert!(is_music_extension(ext));
    }
    assert!(!is_music_extension("MP3"));
    assert!(!is_music_extension("txt"));
}
