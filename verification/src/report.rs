//! The text lines that present a playlist.
use crate::models::{ArtistSongData, PlaylistData, StreamingService};
use crate::text::{decimal, join, push_decimal, push_text, string_views};
use std::collections::BTreeMap;
use vstd::prelude::*;

verus! {

/// The name a streaming service is shown under.
pub open spec fn service_name(service: StreamingService) -> Seq<char> {
    match service {
        StreamingService::Spotify => "Spotify"@,
        StreamingService::YouTubeMusic => "YouTube Music"@,
    }
}

pub open spec fn service_names(services: Seq<StreamingService>) -> Seq<Seq<char>> {
    Seq::new(services.len(), |i: int| service_name(services[i]))
}

/// The lines before the artists: the playlist's name, the platforms when there are
/// any, and an empty line.
pub open spec fn header_lines(name: Seq<char>, platforms: Seq<StreamingService>) -> Seq<Seq<char>> {
    seq!["Playlist: "@ + name] + (if platforms.len() > 0 {
        seq!["Platforms: "@ + join(service_names(platforms), ", "@)]
    } else {
        Seq::empty()
    }) + seq![Seq::<char>::empty()]
}

/// `s` lists the entries of `m`, each once, in increasing order of position.
pub open spec fn in_position_order(m: Map<usize, String>, s: Seq<(usize, Seq<char>)>) -> bool {
    &&& s.len() == m.dom().len()
    &&& forall|i: int, j: int| 0 <= i < j < s.len() ==> s[i].0 < s[j].0
    &&& forall|i: int| 0 <= i < s.len() ==> m.contains_key(#[trigger] s[i].0) && m[s[i].0]@ == s[i].1
}

/// One line per song: its position, a dot and its name.
pub open spec fn song_lines(s: Seq<(usize, Seq<char>)>) -> Seq<Seq<char>> {
    Seq::new(s.len(), |i: int| decimal(s[i].0 as nat) + ". "@ + s[i].1)
}

/// Positions are keys that a `BTreeMap` orders as numbers.
proof fn lemma_positions_are_ordered()
    ensures
        vstd::std_specs::btree::key_obeys_cmp_spec::<usize>(),
{
    broadcast use vstd::std_specs::btree::axiom_key_obeys_cmp_spec_meaning;
    broadcast use vstd::laws_cmp::group_laws_cmp;

}

/// Entries whose positions form an increasing sequence have increasing positions.
proof fn lemma_increasing_positions(r: Seq<(&usize, &String)>)
    requires
        vstd::std_specs::btree::increasing_seq(r.map_values(|kv: (&usize, &String)| *kv.0)),
    ensures
        forall|i: int, j: int| 0 <= i < j < r.len() ==> *r[i].0 < *r[j].0,
{
    broadcast use vstd::std_specs::btree::axiom_increasing_seq_meaning;
    broadcast use vstd::laws_cmp::group_laws_cmp;

    let keys = r.map_values(|kv: (&usize, &String)| *kv.0);
    assert forall|i: int, j: int| 0 <= i < j < r.len() implies *r[i].0 < *r[j].0 by {
        assert(keys[i] == *r[i].0);
        assert(keys[j] == *r[j].0);
        assert(vstd::std_specs::cmp::OrdSpec::cmp_spec(&keys[i], &keys[j]) is Less);
    }
}

/// Returns the name a streaming service is shown under.
pub fn streaming_service_name(service: &StreamingService) -> (name: String)
    ensures
        name@ == service_name(*service),
{
    match service {
        StreamingService::Spotify => String::from_str("Spotify"),
        StreamingService::YouTubeMusic => String::from_str("YouTube Music"),
    }
}

/// The lines before the artists' playlists.
pub fn header_report(playlist_data: &PlaylistData) -> (lines: Vec<String>)
    ensures
        string_views(lines@) == header_lines(
            playlist_data.playlist_name@,
            playlist_data.platforms@,
        ),
{
    let mut lines: Vec<String> = Vec::new();
    let mut first = String::from_str("Playlist: ");
    push_text(&mut first, playlist_data.playlist_name.as_str());
    lines.push(first);
    let platforms = &playlist_data.platforms;
    if platforms.len() > 0 {
        let mut line = String::from_str("Platforms: ");
        let ghost names = service_names(platforms@);
        let ghost start = line@;
        let mut i: usize = 0;
        assert(line@ =~= start + join(names.take(0), ", "@));
        while i < platforms.len()
            invariant
                i <= platforms.len(),
                names == service_names(platforms@),
                line@ == start + join(names.take(i as int), ", "@),
            decreases platforms.len() - i,
        {
            assert(names.take(i + 1).drop_last() =~= names.take(i as int));
            if i > 0 {
                push_text(&mut line, ", ");
            }
            let name = streaming_service_name(&platforms[i]);
            push_text(&mut line, name.as_str());
            if i == 0 {
                assert(names.take(1) =~= seq![names[0]]);
            }
            assert(line@ =~= start + join(names.take(i + 1), ", "@));
            i += 1;
        }
        assert(names.take(platforms.len() as int) =~= names);
        lines.push(line);
    }
    lines.push(String::new());
    assert(string_views(lines@) =~= header_lines(
        playlist_data.playlist_name@,
        playlist_data.platforms@,
    ));
    lines
}

/// The lines of one artist's playlist: the artist, one line per song in increasing order
/// of position, and an empty line.
pub fn artist_report(artist_playlist: &ArtistSongData) -> (lines: Vec<String>)
    ensures
        exists|s: Seq<(usize, Seq<char>)>|
            {
                &&& in_position_order(artist_playlist.songs_by_position@, s)
                &&& string_views(lines@) == seq!["Artist: "@ + artist_playlist.artist@]
                    + song_lines(s) + seq![Seq::<char>::empty()]
            },
{
    let mut lines: Vec<String> = Vec::new();
    let mut first = String::from_str("Artist: ");
    push_text(&mut first, artist_playlist.artist.as_str());
    lines.push(first);
    let songs: &BTreeMap<usize, String> = &artist_playlist.songs_by_position;
    let ghost head = seq!["Artist: "@ + artist_playlist.artist@];
    let ghost mut listed: Seq<(usize, Seq<char>)> = Seq::empty();
    assert(string_views(lines@) =~= head + song_lines(listed));
    proof {
        lemma_positions_are_ordered();
    }
    let iter = songs.iter();
    proof {
        lemma_increasing_positions(vstd::std_specs::iter::IteratorSpec::remaining(&iter));
    }
    for (position, song_name) in it: iter
        invariant
            head == seq!["Artist: "@ + artist_playlist.artist@],
            it.seq().len() == songs@.dom().len(),
            forall|i: int, j: int| 0 <= i < j < it.seq().len() ==> *it.seq()[i].0 < *it.seq()[j].0,
            forall|i: int|
                0 <= i < it.seq().len() ==> songs@.contains_key(*(#[trigger] it.seq()[i]).0)
                    && songs@[*it.seq()[i].0] == *it.seq()[i].1,
            listed.len() == it.index(),
            forall|i: int|
                0 <= i < it.index() ==> (#[trigger] listed[i]).0 == *it.seq()[i].0 && listed[i].1
                    == it.seq()[i].1@,
            string_views(lines@) == head + song_lines(listed),
    {
        let mut line = String::new();
        push_decimal(&mut line, *position);
        push_text(&mut line, ". ");
        push_text(&mut line, song_name.as_str());
        let ghost before = string_views(lines@);
        let ghost prev_listed = listed;
        let ghost text = line@;
        lines.push(line);
        assert(string_views(lines@) =~= before.push(text));
        proof {
            listed = listed.push((*position, song_name@));
            assert(song_lines(listed) =~= song_lines(prev_listed).push(
                decimal(*position as nat) + ". "@ + song_name@,
            ));
        }
        assert(string_views(lines@) =~= head + song_lines(listed));
    }
    lines.push(String::new());
    assert(string_views(lines@) =~= head + song_lines(listed) + seq![Seq::<char>::empty()]);
    assert(in_position_order(songs@, listed));
    lines
}

} // verus!
