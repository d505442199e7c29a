//! The data that flows through the library: setlists as setlist.fm describes them,
//! command-line arguments, per-artist analyses and the resulting playlists.
use crate::song_stats::SongStatsMap;
use std::collections::BTreeMap;
use vstd::prelude::*;

verus! {

/// One page of a setlist search.
#[derive(Debug)]
pub struct SetlistResponse {
    pub setlist: Vec<Setlist>,
    pub total: u32,
    pub page: u32,
    pub items_per_page: u32,
}

/// One show.
#[derive(Debug)]
pub struct Setlist {
    pub artist: Artist,
    pub venue: Venue,
    pub tour: Option<Tour>,
    pub sets: Sets,
    pub info: Option<String>,
    pub url: String,
    pub id: String,
    pub version_id: String,
    /// The day of the show, written `dd-mm-yyyy`.
    pub event_date: String,
    pub last_updated: String,
}

/// The sets of a show, in the order they were played.
#[derive(Debug)]
pub struct Sets {
    pub set: Vec<SetlistSet>,
}

#[derive(Debug)]
pub struct Artist {
    pub mbid: String,
    pub name: String,
    pub sort_name: String,
    pub disambiguation: Option<String>,
    pub url: String,
}

#[derive(Debug)]
pub struct Venue {
    pub id: String,
    pub name: String,
    pub url: String,
    pub city: Option<City>,
}

/// Where a venue stands; its coordinates are not part of this model.
#[derive(Debug)]
pub struct City {
    pub id: Option<String>,
    pub name: Option<String>,
    pub state: Option<String>,
    pub state_code: Option<String>,
    pub country: Option<Country>,
}

#[derive(Debug)]
pub struct Country {
    pub code: Option<String>,
    pub name: Option<String>,
}

#[derive(Debug)]
pub struct Tour {
    pub name: String,
}

/// One set of a show; an encore carries its number in `encore`.
#[derive(Debug)]
pub struct SetlistSet {
    pub name: Option<String>,
    pub encore: Option<u32>,
    pub song: Vec<Song>,
}

/// One entry of a set; a `tape` is recorded music, not a song that was played.
#[derive(Debug)]
pub struct Song {
    pub name: Option<String>,
    pub info: Option<String>,
    pub cover: Option<Artist>,
    pub tape: Option<bool>,
}

/// Where the playlist is meant to go.
#[derive(Clone, Copy, PartialEq, Eq, Structural, Debug)]
pub enum StreamingService {
    Spotify,
    YouTubeMusic,
}

/// The command-line arguments.
#[derive(Debug)]
pub struct Args {
    /// Artists, separated by commas.
    pub artists: String,
    pub playlist_name: Option<String>,
    pub service: StreamingService,
    /// How many pages of setlists to fetch per artist.
    pub page_depth: u16,
    /// A setlist.fm API key to store.
    pub setlist_api_key: Option<String>,
}

/// An average number of songs per setlist, kept as the division `total_songs / setlists`
/// that yields it. A zero divisor stands for a division by zero: no number when
/// `total_songs` is zero, an unbounded one otherwise.
#[derive(Clone, Copy, PartialEq, Eq, Structural, Debug)]
pub struct SetlistAverage {
    pub total_songs: i64,
    pub setlists: u64,
}

/// What the setlists of one artist show.
pub struct ArtistAnalysis {
    pub artist_name: String,
    pub song_stats_by_name: SongStatsMap,
    pub average_songs_per_setlist: SetlistAverage,
}

pub struct ArtistAnalysisCollection {
    pub artist_analyses: Vec<ArtistAnalysis>,
}

/// The playlist of one artist: song names by their position, counted from 1.
pub struct ArtistSongData {
    pub artist: String,
    pub songs_by_position: BTreeMap<usize, String>,
}

pub struct PlaylistData {
    pub playlist_name: String,
    pub platforms: Vec<StreamingService>,
    pub artist_playlists: Vec<ArtistSongData>,
}

} // verus!
