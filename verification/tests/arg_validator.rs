use setlister::models::{Args, StreamingService};
use setlister::secrets_manager::KeyType;
use setlister::validator::arg_validator::ArgValidator;

fn args(artists: &str, playlist_name: Option<&str>, key: Option<&str>) -> Args {
    Args {
        artists: artists.to_string(),
        playlist_name: playlist_name.map(|name| name.to_string()),
        service: StreamingService::YouTubeMusic,
        page_depth: 3,
        setlist_api_key: key.map(|k| k.to_string()),
    }
}

#[test]
fn validate_cleans_artists_names_the_playlist_and_keeps_the_rest() {
    let sanitized = ArgValidator::validate(&args(" Radiohead ,  Muse ,Radiohead", None, None)).unwrap();
    assert_eq!(sanitized.artists, vec!["Radiohead".to_string(), "Muse".to_string()]);
    assert_eq!(sanitized.playlist_name, "Radiohead and Muse Setlist");
    assert_eq!(sanitized.service, StreamingService::YouTubeMusic);
    assert_eq!(sanitized.page_depth, 3);
    assert!(sanitized.secrets_by_type.is_empty());
}

#[test]
fn validate_passes_a_given_api_key_on() {
    let sanitized = ArgValidator::validate(&args("Radiohead", Some("  Late   Night  "), Some("abc123"))).unwrap();
    assert_eq!(sanitized.playlist_name, "Late Night");
    assert_eq!(sanitized.secrets_by_type.len(), 1);
    assert_eq!(sanitized.secrets_by_type[0].0, KeyType::SetlistFmApiKey);
    assert_eq!(sanitized.secrets_by_type[0].1, "abc123");
}

#[test]
fn validate_reports_the_artist_error_first() {
    let long_name = "x".repeat(101);
    let result = ArgValidator::validate(&args(" , ", Some(&long_name), None));
    assert_eq!(
        result.err(),
        Some("No artists provided. Please provide at least one artist.".to_string())
    );
}

#[test]
fn validate_reports_a_too_long_playlist_name() {
    let long_name = "x".repeat(101);
    let result = ArgValidator::validate(&args("Radiohead", Some(&long_name), None));
    assert_eq!(
        result.err(),
        Some("Playlist name is too long (greater than 100 characters). Please provide a shorter playlist name.".to_string())
    );
}
