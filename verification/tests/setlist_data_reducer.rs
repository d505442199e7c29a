use setlister::models::{ArtistAnalysis, ArtistAnalysisCollection, SetlistAverage, StreamingService};
use setlister::reducer::SetlistDataReducer;
use setlister::song_stats::{MeanPosition, SongStats, SongStatsMap};

/// The division whose result the average stands for.
fn average_of(value: f32) -> SetlistAverage {
    if value.is_nan() {
        SetlistAverage { total_songs: 0, setlists: 0 }
    } else if value.is_infinite() {
        SetlistAverage {
            total_songs: if value > 0.0 { 1 } else { -1 },
            setlists: 0,
        }
    } else {
        SetlistAverage {
            total_songs: (value as f64 * 1000.0).round() as i64,
            setlists: 1000,
        }
    }
}

fn mean_of(value: f32) -> MeanPosition {
    MeanPosition {
        total: (value as f64 * 1000.0).round() as u64,
        count: 1000,
    }
}

fn reducer(song_stats_by_name: SongStatsMap) -> SetlistDataReducer {
    let average_songs_per_setlist = song_stats_by_name.len() as f32;
    reducer_with_average(song_stats_by_name, average_songs_per_setlist)
}

fn reducer_with_average(
    song_stats_by_name: SongStatsMap,
    average_songs_per_setlist: f32,
) -> SetlistDataReducer {
    SetlistDataReducer::new(
        "My Playlist".to_string(),
        StreamingService::Spotify,
        ArtistAnalysisCollection {
            artist_analyses: vec![ArtistAnalysis {
                artist_name: "Test Artist".to_string(),
                song_stats_by_name,
                average_songs_per_setlist: average_of(average_songs_per_setlist),
            }],
        },
    )
}

fn song_stats(
    song_name: &str,
    total_plays: u32,
    opener_count: u32,
    closer_count: u32,
    encore_count: u32,
    mean_position: f32,
) -> SongStats {
    SongStats {
        song_name: song_name.to_string(),
        total_plays,
        opener_count,
        closer_count,
        encore_count,
        positions_played: Vec::new(),
        mean_positions_played: vec![mean_of(mean_position)],
        last_played: String::new(),
    }
}

#[test]
fn test_reduce_orders_regular_songs_by_mean_position() {
    let mut song_stats_map = SongStatsMap::new();
    song_stats_map.insert("Song A".to_string(), song_stats("Song A", 2, 0, 0, 0, 3.0));
    song_stats_map.insert("Song B".to_string(), song_stats("Song B", 2, 0, 0, 0, 1.0));
    song_stats_map.insert("Song C".to_string(), song_stats("Song C", 2, 0, 0, 0, 2.0));

    let reducer = reducer(song_stats_map);
    let playlist_data = reducer.reduce();

    let songs = &playlist_data.artist_playlists[0].songs_by_position;
    assert_eq!(songs.get(&1), Some(&"Song B".to_string()));
    assert_eq!(songs.get(&2), Some(&"Song C".to_string()));
    assert_eq!(songs.get(&3), Some(&"Song A".to_string()));
}

#[test]
fn test_reduce_prioritizes_exceptional_opener_regular_closer_then_encore_sections() {
    let mut song_stats_map = SongStatsMap::new();
    song_stats_map.insert("Opener Song".to_string(), song_stats("Opener Song", 10, 9, 0, 0, 8.0));
    song_stats_map.insert("Regular Song".to_string(), song_stats("Regular Song", 10, 1, 0, 0, 2.0));
    song_stats_map.insert("Closer Song".to_string(), song_stats("Closer Song", 10, 0, 8, 0, 9.0));
    song_stats_map.insert("Encore Song".to_string(), song_stats("Encore Song", 10, 0, 0, 8, 10.0));

    let reducer = reducer(song_stats_map);
    let playlist_data = reducer.reduce();

    let songs = &playlist_data.artist_playlists[0].songs_by_position;
    assert_eq!(songs.get(&1), Some(&"Opener Song".to_string()));
    assert_eq!(songs.get(&2), Some(&"Regular Song".to_string()));
    assert_eq!(songs.get(&3), Some(&"Closer Song".to_string()));
    assert_eq!(songs.get(&4), Some(&"Encore Song".to_string()));
}

#[test]
fn test_reduce_does_not_treat_song_as_exceptional_when_total_plays_is_below_minimum() {
    let mut song_stats_map = SongStatsMap::new();
    song_stats_map.insert(
        "Frequent Opener But Low Plays".to_string(),
        song_stats("Frequent Opener But Low Plays", 2, 2, 0, 0, 5.0),
    );
    song_stats_map.insert(
        "Early Regular Song".to_string(),
        song_stats("Early Regular Song", 2, 0, 0, 0, 1.0),
    );

    let reducer = reducer(song_stats_map);
    let playlist_data = reducer.reduce();

    let songs = &playlist_data.artist_playlists[0].songs_by_position;
    assert_eq!(songs.get(&1), Some(&"Early Regular Song".to_string()));
    assert_eq!(
        songs.get(&2),
        Some(&"Frequent Opener But Low Plays".to_string())
    );
}

#[test]
fn test_reduce_sorts_opener_bucket_by_rate_before_mean_position() {
    let mut song_stats_map = SongStatsMap::new();
    song_stats_map.insert(
        "Higher Opener Rate".to_string(),
        song_stats("Higher Opener Rate", 10, 9, 0, 0, 5.0),
    );
    song_stats_map.insert(
        "Lower Opener Rate".to_string(),
        song_stats("Lower Opener Rate", 10, 8, 0, 0, 1.0),
    );

    let reducer = reducer(song_stats_map);
    let playlist_data = reducer.reduce();

    let songs = &playlist_data.artist_playlists[0].songs_by_position;
    assert_eq!(songs.get(&1), Some(&"Higher Opener Rate".to_string()));
    assert_eq!(songs.get(&2), Some(&"Lower Opener Rate".to_string()));
}

#[test]
fn test_reduce_limits_playlist_length_to_rounded_up_average_setlist_size() {
    let mut song_stats_map = SongStatsMap::new();
    song_stats_map.insert("Song A".to_string(), song_stats("Song A", 10, 0, 0, 0, 1.0));
    song_stats_map.insert("Song B".to_string(), song_stats("Song B", 10, 0, 0, 0, 2.0));
    song_stats_map.insert("Song C".to_string(), song_stats("Song C", 10, 0, 0, 0, 3.0));

    let reducer = reducer_with_average(song_stats_map, 2.1);
    let playlist_data = reducer.reduce();

    let songs = &playlist_data.artist_playlists[0].songs_by_position;
    assert_eq!(songs.len(), 3);
    assert_eq!(songs.get(&1), Some(&"Song A".to_string()));
    assert_eq!(songs.get(&2), Some(&"Song B".to_string()));
    assert_eq!(songs.get(&3), Some(&"Song C".to_string()));
}

#[test]
fn test_reduce_applies_offset_to_positive_average_setlist_size() {
    let mut song_stats_map = SongStatsMap::new();
    song_stats_map.insert("Song A".to_string(), song_stats("Song A", 70, 0, 0, 0, 1.0));
    song_stats_map.insert("Song B".to_string(), song_stats("Song B", 60, 0, 0, 0, 2.0));
    song_stats_map.insert("Song C".to_string(), song_stats("Song C", 50, 0, 0, 0, 3.0));
    song_stats_map.insert("Song D".to_string(), song_stats("Song D", 40, 0, 0, 0, 4.0));
    song_stats_map.insert("Song E".to_string(), song_stats("Song E", 30, 0, 0, 0, 5.0));
    song_stats_map.insert("Song F".to_string(), song_stats("Song F", 20, 0, 0, 0, 6.0));
    song_stats_map.insert("Song G".to_string(), song_stats("Song G", 10, 0, 0, 0, 7.0));

    let reducer = reducer_with_average(song_stats_map, 2.1);
    let playlist_data = reducer.reduce();

    let songs = &playlist_data.artist_playlists[0].songs_by_position;
    assert_eq!(songs.len(), 6);
    assert_eq!(songs.get(&1), Some(&"Song A".to_string()));
    assert_eq!(songs.get(&2), Some(&"Song B".to_string()));
    assert_eq!(songs.get(&3), Some(&"Song C".to_string()));
    assert_eq!(songs.get(&4), Some(&"Song D".to_string()));
    assert_eq!(songs.get(&5), Some(&"Song E".to_string()));
    assert_eq!(songs.get(&6), Some(&"Song F".to_string()));
    assert!(songs.values().all(|song| song != "Song G"));
}

#[test]
fn test_reduce_limits_playlist_length_when_average_is_lower_than_song_count() {
    let mut song_stats_map = SongStatsMap::new();
    song_stats_map.insert("Song A".to_string(), song_stats("Song A", 10, 0, 0, 0, 1.0));
    song_stats_map.insert("Song B".to_string(), song_stats("Song B", 10, 0, 0, 0, 2.0));
    song_stats_map.insert("Song C".to_string(), song_stats("Song C", 10, 0, 0, 0, 3.0));

    let reducer = reducer_with_average(song_stats_map, 1.2);
    let playlist_data = reducer.reduce();

    let songs = &playlist_data.artist_playlists[0].songs_by_position;
    assert_eq!(songs.len(), 3);
    assert_eq!(songs.get(&1), Some(&"Song A".to_string()));
    assert_eq!(songs.get(&2), Some(&"Song B".to_string()));
    assert_eq!(songs.get(&3), Some(&"Song C".to_string()));
}

#[test]
fn test_reduce_selects_most_played_songs_before_position_ordering() {
    let mut song_stats_map = SongStatsMap::new();
    song_stats_map.insert(
        "Least Played Early Song".to_string(),
        song_stats("Least Played Early Song", 1, 0, 0, 0, 1.0),
    );
    song_stats_map.insert(
        "Most Played Later Song".to_string(),
        song_stats("Most Played Later Song", 100, 0, 0, 0, 3.0),
    );
    song_stats_map.insert(
        "Second Most Played Mid Song".to_string(),
        song_stats("Second Most Played Mid Song", 90, 0, 0, 0, 2.0),
    );
    song_stats_map.insert(
        "Third Most Played Song".to_string(),
        song_stats("Third Most Played Song", 80, 0, 0, 0, 1.5),
    );
    song_stats_map.insert(
        "Fourth Most Played Song".to_string(),
        song_stats("Fourth Most Played Song", 70, 0, 0, 0, 2.5),
    );
    song_stats_map.insert(
        "Fifth Most Played Song".to_string(),
        song_stats("Fifth Most Played Song", 60, 0, 0, 0, 4.0),
    );

    let reducer = reducer_with_average(song_stats_map, 1.0);
    let playlist_data = reducer.reduce();

    let songs = &playlist_data.artist_playlists[0].songs_by_position;
    assert_eq!(songs.len(), 4);
    assert_eq!(songs.get(&1), Some(&"Third Most Played Song".to_string()));
    assert_eq!(
        songs.get(&2),
        Some(&"Second Most Played Mid Song".to_string())
    );
    assert_eq!(songs.get(&3), Some(&"Fourth Most Played Song".to_string()));
    assert_eq!(songs.get(&4), Some(&"Most Played Later Song".to_string()));
    assert!(songs.values().all(|song| song != "Least Played Early Song"));
    assert!(songs.values().all(|song| song != "Fifth Most Played Song"));
}

#[test]
fn test_reduce_returns_empty_playlist_when_average_setlist_size_is_zero() {
    let mut song_stats_map = SongStatsMap::new();
    song_stats_map.insert("Song A".to_string(), song_stats("Song A", 10, 0, 0, 0, 1.0));
    let reducer = reducer_with_average(song_stats_map, 0.0);

    let playlist_data = reducer.reduce();

    let songs = &playlist_data.artist_playlists[0].songs_by_position;
    assert_eq!(songs.len(), 0);
}

#[test]
fn test_reduce_returns_empty_playlist_when_average_setlist_size_is_negative() {
    let mut song_stats_map = SongStatsMap::new();
    song_stats_map.insert("Song A".to_string(), song_stats("Song A", 10, 0, 0, 0, 1.0));
    let reducer = reducer_with_average(song_stats_map, -1.0);

    let playlist_data = reducer.reduce();

    let songs = &playlist_data.artist_playlists[0].songs_by_position;
    assert_eq!(songs.len(), 0);
}

#[test]
fn test_reduce_returns_empty_playlist_when_average_setlist_size_is_nan() {
    let mut song_stats_map = SongStatsMap::new();
    song_stats_map.insert("Song A".to_string(), song_stats("Song A", 10, 0, 0, 0, 1.0));
    let reducer = reducer_with_average(song_stats_map, f32::NAN);

    let playlist_data = reducer.reduce();

    let songs = &playlist_data.artist_playlists[0].songs_by_position;
    assert_eq!(songs.len(), 0);
}

#[test]
fn test_reduce_returns_empty_playlist_when_average_setlist_size_is_infinite() {
    let mut song_stats_map = SongStatsMap::new();
    song_stats_map.insert("Song A".to_string(), song_stats("Song A", 10, 0, 0, 0, 1.0));
    let reducer = reducer_with_average(song_stats_map, f32::INFINITY);

    let playlist_data = reducer.reduce();

    let songs = &playlist_data.artist_playlists[0].songs_by_position;
    assert_eq!(songs.len(), 0);
}
