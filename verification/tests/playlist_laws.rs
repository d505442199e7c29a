use setlister::models::{ArtistAnalysis, SetlistAverage};
use setlister::reducer::SetlistDataReducer;
use setlister::song_stats::{MeanPosition, SongStats, SongStatsMap};
use std::collections::BTreeSet;

fn stats(name: &str, plays: u32, openers: u32, closers: u32, encores: u32, mean: u64) -> SongStats {
    SongStats {
        song_name: name.to_string(),
        total_plays: plays,
        opener_count: openers,
        closer_count: closers,
        encore_count: encores,
        positions_played: Vec::new(),
        mean_positions_played: vec![MeanPosition { total: mean, count: 1 }],
        last_played: String::new(),
    }
}

fn catalogue() -> SongStatsMap {
    let mut map = SongStatsMap::new();
    let songs = [
        stats("A", 9, 8, 0, 0, 1),
        stats("B", 7, 0, 0, 0, 2),
        stats("C", 7, 0, 0, 0, 3),
        stats("D", 6, 0, 5, 0, 9),
        stats("E", 5, 0, 0, 5, 12),
        stats("F", 2, 0, 0, 0, 4),
        stats("G", 1, 0, 0, 0, 5),
        stats("H", 1, 1, 1, 1, 6),
    ];
    for s in songs {
        map.insert(s.song_name.clone(), s);
    }
    map
}

#[test]
fn playlist_fills_positions_from_one_without_repeating_a_song() {
    let map = catalogue();
    // 9 songs over 4 shows round up to 3, and three more are aimed at: 6 of the 8 songs.
    let slots = SetlistDataReducer::map_song_stats_to_playlist_slots(
        &map,
        SetlistAverage { total_songs: 9, setlists: 4 },
    );
    let positions: Vec<usize> = slots.keys().copied().collect();
    assert_eq!(positions, vec![1, 2, 3, 4, 5, 6]);
    let names: BTreeSet<&String> = slots.values().collect();
    assert_eq!(names.len(), 6);
    for name in &names {
        assert!(map.contains_key(name));
    }
}

#[test]
fn playlist_chooses_the_most_played_songs() {
    let map = catalogue();
    let slots = SetlistDataReducer::map_song_stats_to_playlist_slots(
        &map,
        SetlistAverage { total_songs: 9, setlists: 4 },
    );
    let chosen: BTreeSet<&str> = slots.values().map(|s| s.as_str()).collect();
    let least_chosen = chosen.iter().map(|n| map.get(n).unwrap().total_plays).min().unwrap();
    for (name, stats) in map.entries() {
        if !chosen.contains(name.as_str()) {
            assert!(stats.total_plays <= least_chosen);
        }
    }
    assert_eq!(slots.get(&1), Some(&"A".to_string()));
    assert_eq!(slots.get(&5), Some(&"D".to_string()));
    assert_eq!(slots.get(&6), Some(&"E".to_string()));
}

#[test]
fn playlist_holds_every_song_when_the_target_exceeds_the_catalogue() {
    let map = catalogue();
    let slots = SetlistDataReducer::map_song_stats_to_playlist_slots(
        &map,
        SetlistAverage { total_songs: 40, setlists: 2 },
    );
    assert_eq!(slots.len(), 8);
    assert_eq!(slots.keys().copied().max(), Some(8));
}

#[test]
fn reduce_artist_names_the_artist() {
    let analysis = ArtistAnalysis {
        artist_name: "Radiohead".to_string(),
        song_stats_by_name: catalogue(),
        average_songs_per_setlist: SetlistAverage { total_songs: 0, setlists: 3 },
    };
    let playlist = SetlistDataReducer::reduce_artist(&analysis);
    assert_eq!(playlist.artist, "Radiohead");
    assert!(playlist.songs_by_position.is_empty());
}
