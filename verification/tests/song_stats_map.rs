use setlister::song_stats::{SongStats, SongStatsMap};

fn stats(name: &str, plays: u32) -> SongStats {
    let mut s = SongStats::unplayed(name.to_string());
    s.total_plays = plays;
    s
}

#[test]
fn unplayed_song_has_no_counts() {
    let s = SongStats::unplayed("Airbag".to_string());
    assert_eq!(s.song_name, "Airbag");
    assert_eq!(s.total_plays, 0);
    assert_eq!(s.opener_count, 0);
    assert_eq!(s.closer_count, 0);
    assert_eq!(s.encore_count, 0);
    assert!(s.positions_played.is_empty());
    assert!(s.mean_positions_played.is_empty());
    assert_eq!(s.last_played, "");
}

#[test]
fn insert_replaces_and_returns_the_earlier_stats() {
    let mut map = SongStatsMap::new();
    assert_eq!(map.len(), 0);
    assert!(map.insert("Airbag".to_string(), stats("Airbag", 1)).is_none());
    assert!(map.insert("Creep".to_string(), stats("Creep", 4)).is_none());
    let earlier = map.insert("Airbag".to_string(), stats("Airbag", 2)).unwrap();
    assert_eq!(earlier.total_plays, 1);
    assert_eq!(map.len(), 2);
    assert_eq!(map.get("Airbag").unwrap().total_plays, 2);
    assert_eq!(map.get("Creep").unwrap().total_plays, 4);
    assert!(map.contains_key("Creep"));
    assert!(!map.contains_key("Nude"));
    assert!(map.get("Nude").is_none());
    assert_eq!(map.position_of(&"Creep".to_string()), Some(1));
    assert_eq!(map.position_of(&"Nude".to_string()), None);
    assert_eq!(map.entries().len(), 2);
}
