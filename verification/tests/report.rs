use setlister::models::{ArtistSongData, PlaylistData, StreamingService};
use setlister::report::{artist_report, header_report, streaming_service_name};
use std::collections::BTreeMap;

#[test]
fn services_have_their_display_names() {
    assert_eq!(streaming_service_name(&StreamingService::Spotify), "Spotify");
    assert_eq!(streaming_service_name(&StreamingService::YouTubeMusic), "YouTube Music");
}

#[test]
fn header_lists_name_and_platforms() {
    let data = PlaylistData {
        playlist_name: "Late Night Set".to_string(),
        platforms: vec![StreamingService::Spotify, StreamingService::YouTubeMusic],
        artist_playlists: Vec::new(),
    };
    assert_eq!(
        header_report(&data),
        vec![
            "Playlist: Late Night Set".to_string(),
            "Platforms: Spotify, YouTube Music".to_string(),
            String::new(),
        ]
    );
}

#[test]
fn header_without_platforms_has_no_platform_line() {
    let data = PlaylistData {
        playlist_name: "Mix".to_string(),
        platforms: Vec::new(),
        artist_playlists: Vec::new(),
    };
    assert_eq!(header_report(&data), vec!["Playlist: Mix".to_string(), String::new()]);
}

#[test]
fn artist_report_lists_songs_by_position() {
    let mut songs_by_position = BTreeMap::new();
    songs_by_position.insert(3, "Closer".to_string());
    songs_by_position.insert(1, "Opener".to_string());
    songs_by_position.insert(2, "Middle".to_string());
    let playlist = ArtistSongData { artist: "Radiohead".to_string(), songs_by_position };
    assert_eq!(
        artist_report(&playlist),
        vec![
            "Artist: Radiohead".to_string(),
            "1. Opener".to_string(),
            "2. Middle".to_string(),
            "3. Closer".to_string(),
            String::new(),
        ]
    );
}

#[test]
fn artist_report_of_an_empty_playlist() {
    let playlist = ArtistSongData { artist: "Muse".to_string(), songs_by_position: BTreeMap::new() };
    assert_eq!(artist_report(&playlist), vec!["Artist: Muse".to_string(), String::new()]);
}
