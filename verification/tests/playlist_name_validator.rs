use setlister::models::{Args, StreamingService};
use setlister::validator::playlist_name_validator::PlaylistNameValidator;

fn args(artists: &str, playlist_name: Option<String>) -> Args {
    Args {
        artists: artists.to_string(),
        playlist_name,
        service: StreamingService::Spotify,
        page_depth: 1,
        setlist_api_key: None,
    }
}

#[test]
fn test_validate_valid_playlist_name() {
    let args = args("Artist 1", Some("My Playlist".to_string()));
    let artists = vec!["Artist 1".to_string()];
    let result = PlaylistNameValidator::validate(&args, &artists);
    assert_eq!(result.unwrap(), "My Playlist");
}

#[test]
fn test_validate_playlist_name_too_long() {
    let long_name = "A".repeat(101);
    let args = args("Artist 1", Some(long_name));
    let artists = vec!["Artist 1".to_string()];
    let result = PlaylistNameValidator::validate(&args, &artists);
    assert!(result.is_err());
    assert_eq!(
        result.err().unwrap(),
        "Playlist name is too long (greater than 100 characters). Please provide a shorter playlist name.".to_string()
    );
}

#[test]
fn test_validate_playlist_name_exactly_100_characters() {
    let name = "A".repeat(100);
    let args = args("Artist 1", Some(name.clone()));
    let artists = vec!["Artist 1".to_string()];
    let result = PlaylistNameValidator::validate(&args, &artists);
    assert_eq!(result.unwrap(), name);
}

#[test]
fn test_validate_playlist_name_with_leading_trailing_whitespace() {
    let args = args("Artist 1", Some("  My Playlist  ".to_string()));
    let artists = vec!["Artist 1".to_string()];
    let result = PlaylistNameValidator::validate(&args, &artists);
    assert_eq!(result.unwrap(), "My Playlist");
}

#[test]
fn test_validate_playlist_name_with_extra_inner_whitespace() {
    let args = args("Artist 1", Some("My   Playlist".to_string()));
    let artists = vec!["Artist 1".to_string()];
    let result = PlaylistNameValidator::validate(&args, &artists);
    assert_eq!(result.unwrap(), "My Playlist");
}

#[test]
fn test_validate_playlist_name_strips_non_ascii() {
    let args = args("Artist 1", Some("My Playlïst".to_string()));
    let artists = vec!["Artist 1".to_string()];
    let result = PlaylistNameValidator::validate(&args, &artists);
    assert_eq!(result.unwrap(), "My Playlst");
}

#[test]
fn test_validate_playlist_name_entirely_non_ascii_becomes_empty() {
    let args = args("Artist 1", Some("ïïï".to_string()));
    let artists = vec!["Artist 1".to_string()];
    let result = PlaylistNameValidator::validate(&args, &artists);
    assert_eq!(result.unwrap(), "");
}

#[test]
fn test_validate_generates_default_name_for_single_artist() {
    let args = args("Artist 1", None);
    let artists = vec!["Artist 1".to_string()];
    let result = PlaylistNameValidator::validate(&args, &artists);
    assert_eq!(result.unwrap(), "Artist 1 Setlist");
}

#[test]
fn test_validate_generates_default_name_for_two_artists() {
    let args = args("Artist 1, Artist 2", None);
    let artists = vec!["Artist 1".to_string(), "Artist 2".to_string()];
    let result = PlaylistNameValidator::validate(&args, &artists);
    assert_eq!(result.unwrap(), "Artist 1 and Artist 2 Setlist");
}

#[test]
fn test_validate_generates_default_name_for_multiple_artists() {
    let args = args("Artist 1, Artist 2, Artist 3", None);
    let artists = vec![
        "Artist 1".to_string(),
        "Artist 2".to_string(),
        "Artist 3".to_string(),
    ];
    let result = PlaylistNameValidator::validate(&args, &artists);
    assert_eq!(result.unwrap(), "Artist 1, Artist 2 and Artist 3 Setlist");
}

#[test]
fn test_validate_generates_default_name_truncated_when_too_long() {
    let long_artist_name = "A".repeat(100);
    let args = args(&long_artist_name, None);
    let artists = vec![long_artist_name];
    let result = PlaylistNameValidator::validate(&args, &artists);
    assert_eq!(result.unwrap().len(), 100);
}

#[test]
fn test_validate_generates_default_name_truncated_content_is_correct() {
    let long_artist_name = "A".repeat(100);
    let args = args(&long_artist_name, None);
    let artists = vec![long_artist_name.clone()];
    let result = PlaylistNameValidator::validate(&args, &artists);
    let expected = format!("{} Setlist", long_artist_name)
        .chars()
        .take(100)
        .collect::<String>();
    assert_eq!(result.unwrap(), expected);
}

#[test]
fn test_validate_generates_default_name_multiple_long_artists_truncated() {
    let long_artist_name = "A".repeat(50);
    let args = args(&format!("{}, {}", long_artist_name, long_artist_name), None);
    let artists = vec![long_artist_name.clone(), long_artist_name.clone()];
    let result = PlaylistNameValidator::validate(&args, &artists);
    assert_eq!(result.unwrap().len(), 100);
}
