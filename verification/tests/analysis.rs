use setlister::analysis::{analyze_artist, collect_setlists, played_song_count};
use setlister::models::{Artist, Setlist, SetlistResponse, SetlistSet, Sets, Song, Venue};

fn show(id: &str, event_date: &str, sets: Vec<SetlistSet>) -> Setlist {
    Setlist {
        artist: Artist {
            mbid: "artist-mbid".to_string(),
            name: "Test Artist".to_string(),
            sort_name: "Test Artist".to_string(),
            disambiguation: None,
            url: "https://example.com/artist".to_string(),
        },
        venue: Venue {
            id: "venue-id".to_string(),
            name: "Test Venue".to_string(),
            url: "https://example.com/venue".to_string(),
            city: None,
        },
        tour: None,
        sets: Sets { set: sets },
        info: None,
        url: "https://example.com/setlist".to_string(),
        id: id.to_string(),
        version_id: "version-id".to_string(),
        event_date: event_date.to_string(),
        last_updated: "01-01-2024".to_string(),
    }
}

fn set(encore: Option<u32>, songs: Vec<Song>) -> SetlistSet {
    SetlistSet { name: None, encore, song: songs }
}

fn song(name: &str) -> Song {
    Song { name: Some(name.to_string()), info: None, cover: None, tape: None }
}

fn tape(name: &str) -> Song {
    Song { name: Some(name.to_string()), info: None, cover: None, tape: Some(true) }
}

fn page(number: u32, shows: Vec<Setlist>) -> SetlistResponse {
    SetlistResponse { total: 10, page: number, items_per_page: 20, setlist: shows }
}

#[test]
fn collect_setlists_keeps_page_order_and_skips_failed_pages() {
    let responses = vec![
        Ok(page(1, vec![show("a", "01-01-2024", vec![]), show("b", "02-01-2024", vec![])])),
        Err("Error sending request: timeout".to_string()),
        Ok(page(3, vec![show("c", "03-01-2024", vec![])])),
    ];
    let setlists = collect_setlists(responses);
    let ids: Vec<&str> = setlists.iter().map(|s| s.id.as_str()).collect();
    assert_eq!(ids, vec!["a", "b", "c"]);
}

#[test]
fn collect_setlists_of_only_failed_pages_is_empty() {
    let responses = vec![
        Err("Error parsing JSON: bad".to_string()),
        Err("Error sending request: refused".to_string()),
    ];
    assert!(collect_setlists(responses).is_empty());
    assert!(collect_setlists(Vec::new()).is_empty());
}

#[test]
fn played_song_count_leaves_out_tape() {
    let setlists = vec![
        show("a", "01-01-2024", vec![
            set(None, vec![tape("Intro"), song("One"), song("Two")]),
            set(Some(1), vec![song("Three")]),
        ]),
        show("b", "02-01-2024", vec![set(None, vec![song("One"), tape("Outro")])]),
    ];
    assert_eq!(played_song_count(&setlists), 4);
    assert_eq!(played_song_count(&[]), 0);
}

#[test]
fn analyze_artist_counts_songs_and_averages_shows() {
    let setlists = vec![
        show("a", "01-01-2024", vec![
            set(None, vec![tape("Intro"), song("One"), song("Two")]),
            set(Some(1), vec![song("Three")]),
        ]),
        show("b", "05-02-2024", vec![set(None, vec![song("One"), song("Four")])]),
    ];
    let analysis = analyze_artist("Test Artist".to_string(), &setlists).unwrap();
    assert_eq!(analysis.artist_name, "Test Artist");
    assert_eq!(analysis.average_songs_per_setlist.total_songs, 5);
    assert_eq!(analysis.average_songs_per_setlist.setlists, 2);
    assert_eq!(analysis.song_stats_by_name.len(), 4);
    let one = analysis.song_stats_by_name.get("One").unwrap();
    assert_eq!(one.total_plays, 2);
    assert_eq!(one.opener_count, 2);
    assert_eq!(one.positions_played, vec![1, 1]);
    assert_eq!(one.last_played, "05-02-2024");
    let three = analysis.song_stats_by_name.get("Three").unwrap();
    assert_eq!(three.encore_count, 1);
    assert_eq!(three.closer_count, 0);
    assert!(analysis.song_stats_by_name.get("Intro").is_none());
}

#[test]
fn analyze_artist_without_shows_has_the_empty_average() {
    let analysis = analyze_artist("Nobody".to_string(), &[]).unwrap();
    assert_eq!(analysis.song_stats_by_name.len(), 0);
    assert_eq!(analysis.average_songs_per_setlist.total_songs, 0);
    assert_eq!(analysis.average_songs_per_setlist.setlists, 1);
}

#[test]
fn plays_of_all_songs_sum_to_the_songs_played() {
    let setlists = vec![
        show("a", "01-01-2024", vec![
            set(None, vec![tape("Intro"), song("One"), song("Two")]),
            set(Some(1), vec![song("Three"), song("One")]),
        ]),
        show("b", "02-01-2024", vec![set(None, vec![song("Two"), tape("Outro")])]),
    ];
    let analysis = analyze_artist("Test Artist".to_string(), &setlists).unwrap();
    let sum: u64 = analysis
        .song_stats_by_name
        .entries()
        .iter()
        .map(|(_, stats)| u64::from(stats.total_plays))
        .sum();
    assert_eq!(sum, played_song_count(&setlists));
    assert_eq!(sum, 5);
    for (_, stats) in analysis.song_stats_by_name.entries() {
        assert!(stats.opener_count <= stats.total_plays);
        assert!(stats.closer_count + stats.encore_count <= stats.total_plays);
    }
}
