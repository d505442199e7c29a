use setlister::models::{Args, StreamingService};
use setlister::validator::artist_validator::ArtistValidator;

struct ArgsMotherObject {
    artists: String,
    playlist_name: Option<String>,
    service: StreamingService,
    page_depth: u16,
}

impl ArgsMotherObject {
    fn default() -> Self {
        Self {
            artists: "Artist 1".to_string(),
            playlist_name: None,
            service: StreamingService::Spotify,
            page_depth: 1,
        }
    }

    fn with_artists(mut self, artists: &str) -> Self {
        self.artists = artists.to_string();
        self
    }

    fn with_page_depth(mut self, page_depth: u16) -> Self {
        self.page_depth = page_depth;
        self
    }

    fn build(self) -> Args {
        Args {
            artists: self.artists,
            playlist_name: self.playlist_name,
            service: self.service,
            page_depth: self.page_depth,
            setlist_api_key: None,
        }
    }
}

#[test]
fn test_validate_valid_artists() {
    let args = ArgsMotherObject::default()
        .with_artists("Artist 1, Artist 2, Artist 3")
        .build();
    let artists = ArtistValidator::validate(&args).unwrap();
    assert_eq!(artists.len(), 3);
    assert_eq!(artists[0], "Artist 1");
    assert_eq!(artists[1], "Artist 2");
    assert_eq!(artists[2], "Artist 3");
}

#[test]
fn test_validate_empty_artists() {
    let args = ArgsMotherObject::default().with_artists("").build();
    let result = ArtistValidator::validate(&args);
    assert!(result.is_err());
    assert_eq!(
        result.err().unwrap(),
        "No artists provided. Please provide at least one artist.".to_string()
    );
}

#[test]
fn test_validate_too_many_artists() {
    let args = ArgsMotherObject::default()
        .with_artists("Artist 1, Artist 2, Artist 3, Artist 4, Artist 5, Artist 6, Artist 7, Artist 8, Artist 9, Artist 10, Artist 11")
        .build();
    let result = ArtistValidator::validate(&args);
    assert!(result.is_err());
    assert_eq!(
        result.err().unwrap(),
        "Too many artists provided. Please provide 10 or fewer artists. You provided 11 artists.".to_string()
    );
}

#[test]
fn test_validate_artist_name_too_long() {
    let long_artist_name = "A".repeat(101);
    let args = ArgsMotherObject::default()
        .with_artists(&long_artist_name)
        .build();
    let result = ArtistValidator::validate(&args);
    assert!(result.is_err());
    assert_eq!(
        result.err().unwrap(),
        format!(
            "The following artist names are too long (greater than 100 characters): {}",
            long_artist_name
        )
    );
}

#[test]
fn test_validate_artist_name_with_extra_whitespace() {
    let args = ArgsMotherObject::default()
        .with_artists("  Artist 1  ,   Artist 2   , Artist 3   ")
        .build();
    let artists = ArtistValidator::validate(&args).unwrap();
    assert_eq!(artists.len(), 3);
    assert_eq!(artists[0], "Artist 1");
    assert_eq!(artists[1], "Artist 2");
    assert_eq!(artists[2], "Artist 3");
}

#[test]
fn test_validate_artist_name_with_duplicates() {
    let args = ArgsMotherObject::default()
        .with_artists("Artist 1, Artist 2, Artist 1, Artist 3")
        .build();
    let artists = ArtistValidator::validate(&args).unwrap();
    assert_eq!(artists.len(), 3);
    assert_eq!(artists[0], "Artist 1");
    assert_eq!(artists[1], "Artist 2");
    assert_eq!(artists[2], "Artist 3");
}

#[test]
fn test_validate_artist_name_with_empty_names() {
    let args = ArgsMotherObject::default()
        .with_artists("Artist 1, , Artist 2, , Artist 3")
        .build();
    let artists = ArtistValidator::validate(&args).unwrap();
    assert_eq!(artists.len(), 3);
    assert_eq!(artists[0], "Artist 1");
    assert_eq!(artists[1], "Artist 2");
    assert_eq!(artists[2], "Artist 3");
}

#[test]
fn test_validate_artist_name_with_non_unicode_characters() {
    let args = ArgsMotherObject::default()
        .with_artists("Artist 1, Artïst 2, Artïst 3")
        .build();
    let artists = ArtistValidator::validate(&args).unwrap();
    assert_eq!(artists.len(), 3);
    assert_eq!(artists[0], "Artist 1");
    assert_eq!(artists[1], "Artst 2");
    assert_eq!(artists[2], "Artst 3");
}

#[test]
fn test_validate_single_artist() {
    let args = ArgsMotherObject::default().with_artists("Artist 1").build();
    let artists = ArtistValidator::validate(&args).unwrap();
    assert_eq!(artists.len(), 1);
    assert_eq!(artists[0], "Artist 1");
}

#[test]
fn test_validate_exactly_ten_artists() {
    let args = ArgsMotherObject::default()
        .with_artists("Artist 1, Artist 2, Artist 3, Artist 4, Artist 5, Artist 6, Artist 7, Artist 8, Artist 9, Artist 10")
        .build();
    let artists = ArtistValidator::validate(&args).unwrap();
    assert_eq!(artists.len(), 10);
}

#[test]
fn test_validate_artist_name_exactly_100_characters() {
    let artist_name = "A".repeat(100);
    let args = ArgsMotherObject::default()
        .with_artists(&artist_name)
        .build();
    let artists = ArtistValidator::validate(&args).unwrap();
    assert_eq!(artists.len(), 1);
    assert_eq!(artists[0], artist_name);
}

#[test]
fn test_validate_case_sensitive_duplicates_not_removed() {
    let args = ArgsMotherObject::default()
        .with_artists("artist 1, Artist 1")
        .build();
    let artists = ArtistValidator::validate(&args).unwrap();
    assert_eq!(artists.len(), 2);
}

#[test]
fn test_validate_artist_entirely_non_ascii_becomes_empty() {
    let args = ArgsMotherObject::default()
        .with_artists("Artist 1, ïïï, Artist 3")
        .build();
    let artists = ArtistValidator::validate(&args).unwrap();
    assert_eq!(artists.len(), 2);
    assert_eq!(artists[0], "Artist 1");
    assert_eq!(artists[1], "Artist 3");
}

#[test]
fn test_validate_non_ascii_stripping_creates_duplicates() {
    let args = ArgsMotherObject::default()
        .with_artists("Artïst, Artüst")
        .build();
    let artists = ArtistValidator::validate(&args).unwrap();
    assert_eq!(artists.len(), 1);
    assert_eq!(artists[0], "Artst");
}

#[test]
fn test_validate_whitespace_only_artist_is_filtered() {
    let args = ArgsMotherObject::default()
        .with_artists("Artist 1,    , Artist 2")
        .build();
    let artists = ArtistValidator::validate(&args).unwrap();
    assert_eq!(artists.len(), 2);
    assert_eq!(artists[0], "Artist 1");
    assert_eq!(artists[1], "Artist 2");
}

#[test]
fn test_validate_only_non_ascii_artists_returns_error() {
    let args = ArgsMotherObject::default().with_artists("ïïï, üüü").build();
    let result = ArtistValidator::validate(&args);
    assert!(result.is_err());
    assert_eq!(
        result.err().unwrap(),
        "No valid artists provided after processing. Please provide at least one valid artist."
            .to_string()
    );
}

#[test]
fn test_default_page_depth_is_one() {
    let args = ArgsMotherObject::default().build();
    assert_eq!(args.page_depth, 1);
}

#[test]
fn test_page_depth_can_be_overridden() {
    let args = ArgsMotherObject::default().with_page_depth(5).build();
    assert_eq!(args.page_depth, 5);
}

#[test]
fn test_page_depth_minimum_value() {
    let args = ArgsMotherObject::default().with_page_depth(1).build();
    assert_eq!(args.page_depth, 1);
}

#[test]
fn test_page_depth_maximum_u16_value() {
    let args = ArgsMotherObject::default()
        .with_page_depth(u16::MAX)
        .build();
    assert_eq!(args.page_depth, u16::MAX);
}
