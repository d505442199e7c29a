use setlister::models::{Artist, City, Country, Setlist, SetlistSet, Sets, Song, Venue};
use setlister::processor::SetlistDataProcessor;
use setlister::song_stats::MeanPosition;

fn show(event_date: &str, sets: Vec<SetlistSet>) -> Setlist {
    Setlist {
        artist: Artist {
            mbid: "artist-mbid".to_string(),
            name: "Test Artist".to_string(),
            sort_name: "Test Artist".to_string(),
            disambiguation: None,
            url: "https://example.com/artist".to_string(),
        },
        venue: Venue {
            id: "venue-id".to_string(),
            name: "Test Venue".to_string(),
            url: "https://example.com/venue".to_string(),
            city: Some(City {
                id: Some("city-id".to_string()),
                name: Some("Test City".to_string()),
                state: None,
                state_code: None,
                country: Some(Country {
                    code: Some("US".to_string()),
                    name: Some("United States".to_string()),
                }),
            }),
        },
        tour: None,
        sets: Sets { set: sets },
        info: None,
        url: "https://example.com/setlist".to_string(),
        id: "setlist-id".to_string(),
        version_id: "version-id".to_string(),
        event_date: event_date.to_string(),
        last_updated: "01-01-2024".to_string(),
    }
}

fn set(encore: Option<u32>, songs: Vec<Song>) -> SetlistSet {
    SetlistSet {
        name: None,
        encore,
        song: songs,
    }
}

fn song(name: Option<&str>, info: Option<&str>, tape: Option<bool>) -> Song {
    Song {
        name: name.map(|value| value.to_string()),
        info: info.map(|value| value.to_string()),
        cover: None,
        tape,
    }
}

fn mean_value(mean: Option<&MeanPosition>) -> Option<f64> {
    mean.map(|m| m.total as f64 / m.count as f64)
}

#[test]
fn test_reduce_to_song_stats_tracks_positions_openers_closers_and_encores() {
    let show = show(
        "21-09-2023",
        vec![
            set(
                None,
                vec![
                    song(Some("Song A"), None, Some(false)),
                    song(Some("Tape Intro"), None, Some(true)),
                    song(Some("Song C"), None, Some(false)),
                ],
            ),
            set(Some(1), vec![song(Some("Song A"), None, Some(false))]),
        ],
    );

    let stats_map = SetlistDataProcessor::reduce_to_song_stats(&[show]);

    let song_a = stats_map.get("Song A").unwrap();
    assert_eq!(song_a.total_plays, 2);
    assert_eq!(song_a.positions_played, vec![1, 3]);
    assert_eq!(song_a.opener_count, 1);
    assert_eq!(song_a.encore_count, 1);
    assert_eq!(song_a.closer_count, 0);
    assert_eq!(song_a.last_played, "21-09-2023");
    assert_eq!(mean_value(song_a.mean_positions_played.last()), Some(2.0));

    let song_c = stats_map.get("Song C").unwrap();
    assert_eq!(song_c.total_plays, 1);
    assert_eq!(song_c.positions_played, vec![2]);
    assert_eq!(song_c.opener_count, 0);
    assert_eq!(song_c.encore_count, 0);
    assert_eq!(song_c.closer_count, 1);
    assert_eq!(song_c.last_played, "21-09-2023");
    assert_eq!(mean_value(song_c.mean_positions_played.last()), Some(2.0));
}

#[test]
fn test_reduce_to_song_stats_falls_back_to_info_then_unknown_song() {
    let show = show(
        "21-09-2023",
        vec![set(
            None,
            vec![
                song(None, Some("Jam Session"), Some(false)),
                song(None, None, Some(false)),
            ],
        )],
    );

    let stats_map = SetlistDataProcessor::reduce_to_song_stats(&[show]);

    assert!(stats_map.contains_key("Jam Session"));
    assert!(stats_map.contains_key("Unknown Song"));
}

#[test]
fn test_reduce_to_song_stats_keeps_newer_last_played_when_input_order_is_unsorted() {
    let newer_show = show(
        "21-09-2023",
        vec![set(None, vec![song(Some("Song A"), None, Some(false))])],
    );
    let older_show = show(
        "05-01-2023",
        vec![set(None, vec![song(Some("Song A"), None, Some(false))])],
    );

    let stats_map = SetlistDataProcessor::reduce_to_song_stats(&[newer_show, older_show]);

    let song_a = stats_map.get("Song A").unwrap();
    assert_eq!(song_a.last_played, "21-09-2023");
}

#[test]
fn test_reduce_to_song_stats_ignores_invalid_event_date_for_last_played() {
    let invalid_date_show = show(
        "2023-09-21",
        vec![set(None, vec![song(Some("Song A"), None, Some(false))])],
    );

    let stats_map = SetlistDataProcessor::reduce_to_song_stats(&[invalid_date_show]);

    let song_a = stats_map.get("Song A").unwrap();
    assert_eq!(song_a.last_played, "");
}

#[test]
fn test_reduce_to_song_stats_calculates_expected_mean_positions() {
    let show = show(
        "21-09-2023",
        vec![set(
            None,
            vec![
                song(Some("Song A"), None, Some(false)),
                song(Some("Song B"), None, Some(false)),
                song(Some("Song A"), None, Some(false)),
            ],
        )],
    );
    let stats_map = SetlistDataProcessor::reduce_to_song_stats(&[show]);

    let song_a = stats_map.get("Song A").unwrap();
    assert_eq!(song_a.positions_played, vec![1, 3]);
    assert_eq!(mean_value(song_a.mean_positions_played.last()), Some(2.0));

    let song_b = stats_map.get("Song B").unwrap();
    assert_eq!(song_b.positions_played, vec![2]);
    assert_eq!(mean_value(song_b.mean_positions_played.last()), Some(2.0));
}

#[test]
fn test_average_songs_per_setlist_calculates_expected_average() {
    let show_with_two_songs = show(
        "21-09-2023",
        vec![set(
            None,
            vec![
                song(Some("Song A"), None, Some(false)),
                song(Some("Tape Intro"), None, Some(true)),
                song(Some("Song B"), None, Some(false)),
            ],
        )],
    );
    let show_with_four_songs = show(
        "22-09-2023",
        vec![
            set(
                None,
                vec![
                    song(Some("Song C"), None, Some(false)),
                    song(Some("Song D"), None, Some(false)),
                ],
            ),
            set(
                Some(1),
                vec![
                    song(Some("Song E"), None, Some(false)),
                    song(Some("Song F"), None, Some(false)),
                ],
            ),
        ],
    );

    let average = SetlistDataProcessor::average_songs_per_setlist(&[
        show_with_two_songs,
        show_with_four_songs,
    ]);

    assert_eq!(average.total_songs as f64 / average.setlists as f64, 3.0);
}

#[test]
fn test_average_songs_per_setlist_returns_zero_for_empty_input() {
    let average = SetlistDataProcessor::average_songs_per_setlist(&[]);

    assert_eq!(average.total_songs as f64 / average.setlists as f64, 0.0);
}

#[test]
fn try_reduce_to_song_stats_counts_what_fits() {
    let shows = vec![
        show(
            "01-02-2024",
            vec![set(None, vec![song(Some("Song A"), None, None), song(Some("Outro"), None, Some(true))])],
        ),
        show("03-02-2024", vec![set(None, vec![song(Some("Song B"), None, None), song(Some("Song A"), None, None)])]),
    ];
    let stats_map = SetlistDataProcessor::try_reduce_to_song_stats(&shows).unwrap();
    let song_a = stats_map.get("Song A").unwrap();
    assert_eq!(song_a.total_plays, 2);
    assert_eq!(song_a.positions_played, vec![1, 2]);
    assert_eq!(song_a.opener_count, 1);
    // The first set ends with tape, so "Song A" closed no set there.
    assert_eq!(song_a.closer_count, 1);
    assert_eq!(song_a.last_played, "03-02-2024");
    assert_eq!(mean_value(song_a.mean_positions_played.last()), Some(1.5));
    assert_eq!(stats_map.len(), 2);
    assert!(SetlistDataProcessor::try_reduce_to_song_stats(&[]).unwrap().len() == 0);
}
