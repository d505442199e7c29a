//! From the pages of a setlist search to the analysis of one artist.
use crate::models::{ArtistAnalysis, Setlist, SetlistResponse};
use crate::processor::{
    all_plays, average_of, lemma_plays_are_played_songs, played_count, played_in_sets,
    played_in_shows, song_limits, song_stats_of, SetlistDataProcessor,
};
use vstd::prelude::*;

verus! {

/// The shows of every page that was fetched, page after page; a page that could not be
/// fetched or read adds none.
pub open spec fn fetched_setlists(responses: Seq<Result<SetlistResponse, String>>) -> Seq<Setlist>
    decreases responses.len(),
{
    if responses.len() == 0 {
        Seq::empty()
    } else {
        let earlier = fetched_setlists(responses.drop_last());
        match responses.last() {
            Ok(page) => earlier + page.setlist@,
            Err(_) => earlier,
        }
    }
}

/// The shows of all pages that came back, in page order; failed pages are skipped.
pub fn collect_setlists(responses: Vec<Result<SetlistResponse, String>>) -> (setlists: Vec<Setlist>)
    ensures
        setlists@ == fetched_setlists(responses@),
{
    let ghost all = responses@;
    let mut setlists: Vec<Setlist> = Vec::new();
    for response in it: responses.into_iter()
        invariant
            it.seq() == all,
            setlists@ == fetched_setlists(all.take(it.index() as int)),
    {
        let ghost i = it.index() as int;
        proof {
            assert(all.take(i + 1).drop_last() =~= all.take(i));
        }
        match response {
            Ok(page) => {
                let mut shows = page.setlist;
                setlists.append(&mut shows);
            },
            Err(_) => {},
        }
    }
    proof {
        assert(all.take(all.len() as int) =~= all);
    }
    setlists
}

/// The number of songs played at the shows (tape entries are not counted), or
/// `u64::MAX` where there are more.
pub fn played_song_count(setlists: &[Setlist]) -> (count: u64)
    ensures
        count == vstd::math::min(all_plays(setlists@).len() as int, u64::MAX as int),
{
    proof {
        lemma_plays_are_played_songs(setlists@, 0);
    }
    let mut count: u64 = 0;
    let mut k: usize = setlists.len();
    while k > 0
        invariant
            k <= setlists@.len(),
            count == vstd::math::min(played_in_shows(setlists@, k as int) as int, u64::MAX as int),
        decreases k,
    {
        k -= 1;
        let sets = &setlists[k].sets.set;
        let mut i: usize = sets.len();
        let ghost later = played_in_shows(setlists@, k + 1);
        while i > 0
            invariant
                i <= sets@.len(),
                sets == &setlists@[k as int].sets.set,
                count == vstd::math::min((later + played_in_sets(sets@, i as int)) as int, u64::MAX as int),
            decreases i,
        {
            i -= 1;
            let songs = &sets[i].song;
            let ghost after = later + played_in_sets(sets@, i + 1);
            let mut j: usize = songs.len();
            while j > 0
                invariant
                    j <= songs@.len(),
                    songs == &sets@[i as int].song,
                    count == vstd::math::min((after + played_count(songs@, j as int)) as int, u64::MAX as int),
                decreases j,
            {
                j -= 1;
                let is_tape = match songs[j].tape {
                    Some(t) => t,
                    None => false,
                };
                if !is_tape {
                    count = count.saturating_add(1);
                }
            }
        }
    }
    count
}

/// What the shows of one artist tell: the statistics of each song and the average
/// number of songs per show; none where the songs pass what the counters hold
/// (`song_limits`).
pub fn analyze_artist(artist_name: String, setlists: &[Setlist]) -> (analysis: Option<ArtistAnalysis>)
    requires
        played_in_shows(setlists@, 0) <= i64::MAX,
    ensures
        analysis is Some <==> song_limits(setlists@),
        analysis matches Some(a) ==> {
            &&& a.artist_name@ == artist_name@
            &&& a.song_stats_by_name@ == song_stats_of(setlists@)
            &&& a.average_songs_per_setlist == average_of(setlists@)
        },
{
    match SetlistDataProcessor::try_reduce_to_song_stats(setlists) {
        Some(song_stats_by_name) => {
            let average_songs_per_setlist = SetlistDataProcessor::average_songs_per_setlist(setlists);
            Some(ArtistAnalysis { artist_name, song_stats_by_name, average_songs_per_setlist })
        },
        None => None,
    }
}

} // verus!
