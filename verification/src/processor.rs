//! Per-song statistics and the average setlist length of an artist's shows.
use crate::models::{Setlist, SetlistAverage, SetlistSet, Song};
use crate::song_stats::{unplayed_model, MeanPosition, SongStats, SongStatsMap, SongStatsModel};
use crate::text::{chars_of, trim, trim_chars};
use chrono::Datelike;
use vstd::prelude::*;

verus! {

/// A calendar date as (year, month, day).
pub type EventDate = (i32, u32, u32);

/// The date that `chrono::NaiveDate::parse_from_str(text, "%d-%m-%Y")` reads in `text`,
/// as (year, month, day); `None` where it refuses the text.
pub uninterp spec fn parsed_event_date(text: Seq<char>) -> Option<(i32, u32, u32)>;

/// Reads a `dd-mm-yyyy` date with `chrono::NaiveDate::parse_from_str` and gives it as
/// (year, month, day). The result is a function of the text alone, with the month in
/// 1..=12 and the day in 1..=31 as chrono's `month` and `day` document, and no date
/// in an empty text (chrono's number scanner refuses it); which other texts chrono
/// accepts is not stated here.
#[verifier::external_body]
fn parse_event_date(text: &str) -> (date: Option<(i32, u32, u32)>)
    ensures
        date == parsed_event_date(text@),
        date matches Some(d) ==> 1 <= d.1 <= 12 && 1 <= d.2 <= 31,
        text@.len() == 0 ==> date is None,
{
    match chrono::NaiveDate::parse_from_str(text, "%d-%m-%Y") {
        Ok(d) => Some((d.year(), d.month(), d.day())),
        Err(_) => None,
    }
}

/// Whether date `a` comes after date `b` (dates ordered by year, then month, then day).
pub open spec fn is_later(a: EventDate, b: EventDate) -> bool {
    ||| a.0 > b.0
    ||| a.0 == b.0 && a.1 > b.1
    ||| a.0 == b.0 && a.1 == b.1 && a.2 > b.2
}

/// Which of two dates a song was last played on is kept: the show's, when the show's
/// date can be read and the date kept so far cannot or is earlier.
pub open spec fn latest_date_text(
    current: Seq<char>,
    current_date: Option<EventDate>,
    event: Seq<char>,
    event_date: Option<EventDate>,
) -> Seq<char> {
    match event_date {
        Some(d) => match current_date {
            Some(e) => if is_later(d, e) {
                event
            } else {
                current
            },
            None => event,
        },
        None => current,
    }
}

/// Recorded music, not a song that was played.
pub open spec fn is_tape(song: Song) -> bool {
    song.tape == Some(true)
}

pub open spec fn has_text(o: Option<String>) -> bool {
    match o {
        Some(s) => trim(s@).len() > 0,
        None => false,
    }
}

/// The song's name, else its info, else "Unknown Song" (blank texts do not count).
pub open spec fn resolved_song_name(song: Song) -> Seq<char> {
    if has_text(song.name) {
        song.name.unwrap()@
    } else if has_text(song.info) {
        song.info.unwrap()@
    } else {
        "Unknown Song"@
    }
}

/// One song played at a show.
pub struct Play {
    pub name: Seq<char>,
    /// Its place among the songs of the show that were played, counted from 1.
    pub position: nat,
    pub encore: bool,
    /// Whether it is the last entry of its set.
    pub set_closer: bool,
    /// The date of the show, as written.
    pub event_date: Seq<char>,
}

/// The songs played from entry `j` of a set on, the show having played `pos` songs before.
pub open spec fn set_plays(songs: Seq<Song>, j: int, pos: nat, encore: bool, date: Seq<char>) -> Seq<
    Play,
>
    decreases songs.len() - j,
{
    if j < 0 || j >= songs.len() {
        Seq::empty()
    } else if is_tape(songs[j]) {
        set_plays(songs, j + 1, pos, encore, date)
    } else {
        seq![
            Play {
                name: resolved_song_name(songs[j]),
                position: pos + 1,
                encore,
                set_closer: j == songs.len() - 1,
                event_date: date,
            },
        ] + set_plays(songs, j + 1, pos + 1, encore, date)
    }
}

/// The number of entries from `j` on that are not tape.
pub open spec fn played_count(songs: Seq<Song>, j: int) -> nat
    decreases songs.len() - j,
{
    if j < 0 || j >= songs.len() {
        0
    } else if is_tape(songs[j]) {
        played_count(songs, j + 1)
    } else {
        played_count(songs, j + 1) + 1
    }
}

/// The songs played in sets `i` onwards of a show that played `pos` songs before them.
pub open spec fn sets_plays(sets: Seq<SetlistSet>, i: int, pos: nat, date: Seq<char>) -> Seq<Play>
    decreases sets.len() - i,
{
    if i < 0 || i >= sets.len() {
        Seq::empty()
    } else {
        set_plays(sets[i].song@, 0, pos, sets[i].encore is Some, date) + sets_plays(
            sets,
            i + 1,
            pos + played_count(sets[i].song@, 0),
            date,
        )
    }
}

/// The songs played at a show, in order.
pub open spec fn show_plays(setlist: Setlist) -> Seq<Play> {
    sets_plays(setlist.sets.set@, 0, 0, setlist.event_date@)
}

/// The songs played at shows `k` onwards.
pub open spec fn shows_plays(setlists: Seq<Setlist>, k: int) -> Seq<Play>
    decreases setlists.len() - k,
{
    if k < 0 || k >= setlists.len() {
        Seq::empty()
    } else {
        show_plays(setlists[k]) + shows_plays(setlists, k + 1)
    }
}

/// Every song played at the shows, show after show.
pub open spec fn all_plays(setlists: Seq<Setlist>) -> Seq<Play> {
    shows_plays(setlists, 0)
}

/// The statistics of a song once one more play of it is counted: a play at `position`,
/// opening the show when `opener`, in an encore when `encore`, closing its set when
/// `set_closer`, at a show on `event_date` whose date reads as `show_date`.
pub open spec fn counted(
    st: SongStatsModel,
    position: nat,
    opener: bool,
    encore: bool,
    set_closer: bool,
    event_date: Seq<char>,
    show_date: Option<EventDate>,
) -> SongStatsModel {
    SongStatsModel {
        song_name: st.song_name,
        total_plays: st.total_plays + 1,
        opener_count: st.opener_count + if opener {
            1nat
        } else {
            0nat
        },
        closer_count: st.closer_count + if set_closer && !encore {
            1nat
        } else {
            0nat
        },
        encore_count: st.encore_count + if encore {
            1nat
        } else {
            0nat
        },
        positions_played: st.positions_played.push(position as usize),
        mean_positions_played: st.mean_positions_played,
        last_played: latest_date_text(
            st.last_played,
            parsed_event_date(st.last_played),
            event_date,
            show_date,
        ),
    }
}

/// The statistics of a song once one more play of it is counted.
pub open spec fn count_play(st: SongStatsModel, p: Play) -> SongStatsModel {
    counted(
        st,
        p.position,
        p.position == 1,
        p.encore,
        p.set_closer,
        p.event_date,
        parsed_event_date(p.event_date),
    )
}

/// The statistics kept for `name`, or those of a song not played yet.
pub open spec fn stats_or_unplayed(m: Map<Seq<char>, SongStatsModel>, name: Seq<char>) -> SongStatsModel {
    if m.contains_key(name) {
        m[name]
    } else {
        unplayed_model(name)
    }
}

/// The statistics once a play is counted for its song.
pub open spec fn record_play(m: Map<Seq<char>, SongStatsModel>, p: Play) -> Map<
    Seq<char>,
    SongStatsModel,
> {
    let current = if m.contains_key(p.name) {
        m[p.name]
    } else {
        unplayed_model(p.name)
    };
    m.insert(p.name, count_play(current, p))
}

/// The statistics once each play is counted, in order.
pub open spec fn record_plays(m: Map<Seq<char>, SongStatsModel>, ps: Seq<Play>) -> Map<
    Seq<char>,
    SongStatsModel,
>
    decreases ps.len(),
{
    if ps.len() == 0 {
        m
    } else {
        record_plays(record_play(m, ps[0]), ps.drop_first())
    }
}

/// The sum of the positions.
pub open spec fn position_sum(s: Seq<usize>) -> nat
    decreases s.len(),
{
    if s.len() == 0 {
        0
    } else {
        position_sum(s.drop_last()) + s.last() as nat
    }
}

/// The statistics with the mean of the positions appended, when there are positions.
pub open spec fn with_mean(st: SongStatsModel) -> SongStatsModel {
    if st.positions_played.len() > 0 {
        SongStatsModel {
            mean_positions_played: st.mean_positions_played.push(
                MeanPosition {
                    total: position_sum(st.positions_played) as u64,
                    count: st.positions_played.len() as u64,
                },
            ),
            ..st
        }
    } else {
        st
    }
}

/// The statistics of every song played at the shows.
pub open spec fn song_stats_of(setlists: Seq<Setlist>) -> Map<Seq<char>, SongStatsModel> {
    record_plays(Map::empty(), all_plays(setlists)).map_values(
        |st: SongStatsModel| with_mean(st),
    )
}

/// The number of songs played at shows `k` onwards.
pub open spec fn played_in_shows(setlists: Seq<Setlist>, k: int) -> nat
    decreases setlists.len() - k,
{
    if k < 0 || k >= setlists.len() {
        0
    } else {
        played_in_sets(setlists[k].sets.set@, 0) + played_in_shows(setlists, k + 1)
    }
}

/// The number of songs played in sets `i` onwards.
pub open spec fn played_in_sets(sets: Seq<SetlistSet>, i: int) -> nat
    decreases sets.len() - i,
{
    if i < 0 || i >= sets.len() {
        0
    } else {
        played_count(sets[i].song@, 0) + played_in_sets(sets, i + 1)
    }
}

/// The average number of songs played per show, as the division that yields it:
/// 0 / 1 where there are no shows.
pub open spec fn average_of(setlists: Seq<Setlist>) -> SetlistAverage {
    if setlists.len() == 0 {
        SetlistAverage { total_songs: 0, setlists: 1 }
    } else {
        SetlistAverage {
            total_songs: played_in_shows(setlists, 0) as i64,
            setlists: setlists.len() as u64,
        }
    }
}

/// Counting the plays keeps every counter of every song within `u32`.
pub open spec fn counters_fit(m: Map<Seq<char>, SongStatsModel>, ps: Seq<Play>) -> bool {
    forall|k: Seq<char>|
        #[trigger] record_plays(m, ps).contains_key(k) ==> {
            let st = record_plays(m, ps)[k];
            &&& st.total_plays <= u32::MAX
            &&& st.opener_count <= u32::MAX
            &&& st.closer_count <= u32::MAX
            &&& st.encore_count <= u32::MAX
        }
}

/// Every play's place in its show fits a `usize`.
pub open spec fn positions_fit(ps: Seq<Play>) -> bool {
    forall|i: int| 0 <= i < ps.len() ==> #[trigger] ps[i].position <= usize::MAX
}

/// The positions of every song sum to at most `usize::MAX`.
pub open spec fn sums_fit(m: Map<Seq<char>, SongStatsModel>) -> bool {
    forall|k: Seq<char>|
        #[trigger] m.contains_key(k) ==> position_sum(m[k].positions_played) <= usize::MAX
}

/// What the counting needs of the shows: every song played at most `u32::MAX` times,
/// its positions summing to at most `usize::MAX`, and every place in a show fitting a
/// `usize`.
pub open spec fn song_limits(setlists: Seq<Setlist>) -> bool {
    &&& positions_fit(all_plays(setlists))
    &&& forall|k: Seq<char>|
        #[trigger] song_stats_of(setlists).contains_key(k) ==> {
            let st = song_stats_of(setlists)[k];
            &&& st.total_plays <= u32::MAX
            &&& position_sum(st.positions_played) <= usize::MAX
        }
}

pub proof fn lemma_record_plays_append(
    m: Map<Seq<char>, SongStatsModel>,
    a: Seq<Play>,
    b: Seq<Play>,
)
    ensures
        record_plays(m, a + b) == record_plays(record_plays(m, a), b),
    decreases a.len(),
{
    if a.len() == 0 {
        assert(a + b =~= b);
    } else {
        assert((a + b)[0] == a[0]);
        assert((a + b).drop_first() =~= a.drop_first() + b);
        lemma_record_plays_append(record_play(m, a[0]), a.drop_first(), b);
    }
}

/// Counting plays only adds to what is kept: each song kept before is kept after, with
/// no counter smaller.
proof fn lemma_record_plays_grow(m: Map<Seq<char>, SongStatsModel>, ps: Seq<Play>, k: Seq<char>)
    requires
        m.contains_key(k),
    ensures
        record_plays(m, ps).contains_key(k),
        record_plays(m, ps)[k].total_plays >= m[k].total_plays,
        record_plays(m, ps)[k].opener_count >= m[k].opener_count,
        record_plays(m, ps)[k].closer_count >= m[k].closer_count,
        record_plays(m, ps)[k].encore_count >= m[k].encore_count,
{
    lemma_record_plays_counts(m, ps, k);
}

/// Where counting all the plays keeps the counters within `u32`, the first play finds
/// the counters that it raises below `u32::MAX`.
proof fn lemma_counters_fit_first(m: Map<Seq<char>, SongStatsModel>, ps: Seq<Play>)
    requires
        ps.len() > 0,
    ensures
        counters_fit(m, ps) ==> ({
            let p = ps[0];
            let cur = stats_or_unplayed(m, p.name);
            &&& cur.total_plays < u32::MAX
            &&& p.position == 1 ==> cur.opener_count < u32::MAX
            &&& p.encore ==> cur.encore_count < u32::MAX
            &&& (p.set_closer && !p.encore) ==> cur.closer_count < u32::MAX
        }),
{
    let p = ps[0];
    let next = record_play(m, p);
    assert(record_plays(m, ps) == record_plays(next, ps.drop_first()));
    lemma_record_plays_grow(next, ps.drop_first(), p.name);
}

/// Counters that fit for a run of plays fit for its beginning.
proof fn lemma_counters_fit_prefix(m: Map<Seq<char>, SongStatsModel>, a: Seq<Play>, b: Seq<Play>)
    requires
        counters_fit(m, a + b),
    ensures
        counters_fit(m, a),
{
    lemma_record_plays_append(m, a, b);
    assert forall|k: Seq<char>| #[trigger] record_plays(m, a).contains_key(k) implies {
        let st = record_plays(m, a)[k];
        &&& st.total_plays <= u32::MAX
        &&& st.opener_count <= u32::MAX
        &&& st.closer_count <= u32::MAX
        &&& st.encore_count <= u32::MAX
    } by {
        lemma_record_plays_grow(record_plays(m, a), b, k);
        assert(record_plays(m, a + b).contains_key(k));
    }
}

/// The positions of a beginning sum to no more than all of them.
proof fn lemma_position_sum_prefix(s: Seq<usize>, i: int)
    requires
        0 <= i <= s.len(),
    ensures
        position_sum(s.take(i)) <= position_sum(s),
    decreases s.len(),
{
    if i < s.len() {
        assert(s.drop_last().take(i) =~= s.take(i));
        lemma_position_sum_prefix(s.drop_last(), i);
    } else {
        assert(s.take(i) =~= s);
    }
}

/// Of a run of plays, no more opened a show than there are plays, and those that
/// closed a regular set and those in an encore are together no more than the plays.
proof fn lemma_role_counts_bounded(ps: Seq<Play>)
    ensures
        openers_in(ps) <= ps.len(),
        closers_in(ps) + encores_in(ps) <= ps.len(),
    decreases ps.len(),
{
    if ps.len() > 0 {
        lemma_role_counts_bounded(ps.drop_first());
    }
}

/// The limits of the counting, said of the songs, are those that each step of it needs.
proof fn lemma_song_limits(setlists: Seq<Setlist>)
    ensures
        song_limits(setlists) <==> ({
            let all = all_plays(setlists);
            let empty = Map::<Seq<char>, SongStatsModel>::empty();
            &&& counters_fit(empty, all)
            &&& positions_fit(all)
            &&& sums_fit(record_plays(empty, all))
        }),
{
    let all = all_plays(setlists);
    let empty = Map::<Seq<char>, SongStatsModel>::empty();
    let m = record_plays(empty, all);
    assert forall|k: Seq<char>| #[trigger] m.contains_key(k) implies {
        &&& song_stats_of(setlists).contains_key(k)
        &&& song_stats_of(setlists)[k].total_plays == m[k].total_plays
        &&& song_stats_of(setlists)[k].positions_played == m[k].positions_played
        &&& m[k].opener_count <= m[k].total_plays
        &&& m[k].closer_count <= m[k].total_plays
        &&& m[k].encore_count <= m[k].total_plays
    } by {
        lemma_record_plays_counts(empty, all, k);
        lemma_role_counts_bounded(plays_named(all, k));
    }
    if song_limits(setlists) {
        assert forall|k: Seq<char>| #[trigger] m.contains_key(k) implies position_sum(
            m[k].positions_played,
        ) <= usize::MAX by {
            assert(song_stats_of(setlists).contains_key(k));
        }
    }
}

/// Every play of a set is numbered after the `pos` plays before it.
proof fn lemma_set_plays_len(songs: Seq<Song>, j: int, pos: nat, encore: bool, date: Seq<char>)
    requires
        0 <= j,
    ensures
        set_plays(songs, j, pos, encore, date).len() == played_count(songs, j),
    decreases songs.len() - j,
{
    if j < songs.len() {
        lemma_set_plays_len(songs, j + 1, pos, encore, date);
        lemma_set_plays_len(songs, j + 1, pos + 1, encore, date);
    }
}

proof fn lemma_sets_plays_len(sets: Seq<SetlistSet>, i: int, pos: nat, date: Seq<char>)
    requires
        0 <= i,
    ensures
        sets_plays(sets, i, pos, date).len() == played_in_sets(sets, i),
    decreases sets.len() - i,
{
    if i < sets.len() {
        lemma_set_plays_len(sets[i].song@, 0, pos, sets[i].encore is Some, date);
        lemma_sets_plays_len(sets, i + 1, pos + played_count(sets[i].song@, 0), date);
    }
}

/// Every song played at the shows is counted once: the plays are as many as the songs
/// that are not tape.
pub proof fn lemma_plays_are_played_songs(setlists: Seq<Setlist>, k: int)
    requires
        0 <= k,
    ensures
        shows_plays(setlists, k).len() == played_in_shows(setlists, k),
    decreases setlists.len() - k,
{
    if k < setlists.len() {
        lemma_sets_plays_len(setlists[k].sets.set@, 0, 0, setlists[k].event_date@);
        lemma_plays_are_played_songs(setlists, k + 1);
    }
}

/// Computes statistics over setlists.
pub struct SetlistDataProcessor;

impl SetlistDataProcessor {
    /// The statistics of every song played at the shows: how often it was played, how
    /// often it opened a show, closed a set that is not an encore, or was played in an
    /// encore, the positions it was played at (tape entries are not counted), the mean of
    /// those positions, and the latest readable show date it was played on.
    pub fn reduce_to_song_stats(setlists: &[Setlist]) -> (song_stats_by_name: SongStatsMap)
        requires
            song_limits(setlists@),
        ensures
            song_stats_by_name@ == song_stats_of(setlists@),
    {
        match Self::try_reduce_to_song_stats(setlists) {
            Some(song_stats_by_name) => song_stats_by_name,
            None => SongStatsMap::new(),
        }
    }

    /// The statistics that `reduce_to_song_stats` gives, where the shows are within
    /// what the counters hold (`song_limits`); none where they are not.
    pub fn try_reduce_to_song_stats(setlists: &[Setlist]) -> (result: Option<SongStatsMap>)
        ensures
            result is Some <==> song_limits(setlists@),
            result matches Some(m) ==> m@ == song_stats_of(setlists@),
    {
        let mut song_stats_by_name = SongStatsMap::new();
        let ghost total = all_plays(setlists@);
        let ghost empty = Map::<Seq<char>, SongStatsModel>::empty();
        let ghost mut done: Seq<Play> = Seq::empty();
        proof {
            lemma_song_limits(setlists@);
            assert(done + total =~= total);
        }
        let mut k: usize = 0;
        while k < setlists.len()
            invariant
                k <= setlists@.len(),
                total == all_plays(setlists@),
                total == shows_plays(setlists@, 0),
                empty == Map::<Seq<char>, SongStatsModel>::empty(),
                done + shows_plays(setlists@, k as int) == total,
                positions_fit(done),
                record_plays(song_stats_by_name@, shows_plays(setlists@, k as int))
                    == record_plays(empty, total),
                song_limits(setlists@) <==> (counters_fit(empty, total) && positions_fit(total)
                    && sums_fit(record_plays(empty, total))),
            decreases setlists@.len() - k,
        {
            let ghost before = song_stats_by_name@;
            let ghost rest = shows_plays(setlists@, k + 1);
            let ghost show = show_plays(setlists@[k as int]);
            assert(shows_plays(setlists@, k as int) == show + rest);
            assert(done + (show + rest) == total);
            assert forall|t: int| 0 <= t < show.len() implies #[trigger] show[t] == total[done.len() + t] by {
                assert((done + (show + rest))[done.len() + t] == show[t]);
            }
            let ok = Self::process_show(&setlists[k], &mut song_stats_by_name);
            if !ok {
                proof {
                    if counters_fit(empty, total) && positions_fit(total) {
                        assert(counters_fit(before, show + rest));
                        lemma_counters_fit_prefix(before, show, rest);
                        assert forall|t: int| 0 <= t < show.len() implies #[trigger] show[t].position
                            <= usize::MAX by {
                            assert(total[done.len() + t].position <= usize::MAX);
                        }
                        assert(false);
                    }
                }
                return None;
            }
            proof {
                lemma_record_plays_append(before, show, rest);
                assert((done + show) + rest =~= done + (show + rest));
                assert forall|t: int| 0 <= t < (done + show).len() implies #[trigger] (done
                    + show)[t].position <= usize::MAX by {
                    if t >= done.len() {
                        assert((done + show)[t] == show[t - done.len()]);
                    }
                }
                done = done + show;
            }
            k += 1;
        }
        proof {
            assert(shows_plays(setlists@, k as int) =~= Seq::<Play>::empty());
            assert(done + Seq::<Play>::empty() =~= done);
            song_stats_by_name.lemma_counters_fit();
        }
        let ghost counted = song_stats_by_name@;
        if !Self::populate_mean_positions(&mut song_stats_by_name) {
            return None;
        }
        proof {
            assert(song_stats_by_name@ =~= counted.map_values(|st: SongStatsModel| with_mean(st)));
        }
        Some(song_stats_by_name)
    }

    /// The average number of songs per show that are not tape, as the division
    /// that yields it; 0 / 1 when there are no shows.
    pub fn average_songs_per_setlist(setlists: &[Setlist]) -> (average: SetlistAverage)
        requires
            played_in_shows(setlists@, 0) <= i64::MAX,
        ensures
            average == average_of(setlists@),
    {
        if setlists.len() == 0 {
            return SetlistAverage { total_songs: 0, setlists: 1 };
        }
        let mut total_songs: u64 = 0;
        let mut k: usize = 0;
        while k < setlists.len()
            invariant
                k <= setlists@.len(),
                total_songs + played_in_shows(setlists@, k as int) == played_in_shows(
                    setlists@,
                    0,
                ),
                played_in_shows(setlists@, 0) <= i64::MAX,
            decreases setlists@.len() - k,
        {
            let count = Self::count_non_tape_songs_in_show(&setlists[k]);
            total_songs = total_songs + count;
            k += 1;
        }
        SetlistAverage { total_songs: total_songs as i64, setlists: setlists.len() as u64 }
    }

    /// The number of entries of the show that are not tape.
    fn count_non_tape_songs_in_show(show: &Setlist) -> (count: u64)
        requires
            played_in_sets(show.sets.set@, 0) <= i64::MAX,
        ensures
            count == played_in_sets(show.sets.set@, 0),
    {
        let sets = &show.sets.set;
        let mut count: u64 = 0;
        let mut i: usize = 0;
        while i < sets.len()
            invariant
                i <= sets@.len(),
                sets == &show.sets.set,
                count + played_in_sets(sets@, i as int) == played_in_sets(sets@, 0),
                played_in_sets(sets@, 0) <= i64::MAX,
            decreases sets@.len() - i,
        {
            let songs = &sets[i].song;
            let mut j: usize = 0;
            let ghost start = count;
            while j < songs.len()
                invariant
                    j <= songs@.len(),
                    count + played_count(songs@, j as int) == start + played_count(songs@, 0),
                    start + played_count(songs@, 0) + played_in_sets(sets@, i + 1) == played_in_sets(sets@, 0),
                    played_in_sets(sets@, 0) <= i64::MAX,
                decreases songs@.len() - j,
            {
                if !Self::is_tape_entry(&songs[j]) {
                    count = count + 1;
                }
                j += 1;
            }
            i += 1;
        }
        count
    }

    fn is_tape_entry(song: &Song) -> (b: bool)
        ensures
            b == is_tape(*song),
    {
        match song.tape {
            Some(t) => t,
            None => false,
        }
    }

    /// Counts the songs of one show, set after set, their positions counted from the
    /// start of the show. Gives `false`, and leaves the counts unfinished, exactly where
    /// a counter would pass `u32::MAX` or a position `usize::MAX`.
    fn process_show(setlist: &Setlist, song_stats_by_name: &mut SongStatsMap) -> (ok: bool)
        ensures
            ok <==> (counters_fit(old(song_stats_by_name)@, show_plays(*setlist)) && positions_fit(
                show_plays(*setlist),
            )),
            ok ==> final(song_stats_by_name)@ == record_plays(
                old(song_stats_by_name)@,
                show_plays(*setlist),
            ),
    {
        let mut show_song_position: usize = 0;
        let event_date = setlist.event_date.as_str();
        let show_date = parse_event_date(event_date);
        let sets = &setlist.sets.set;
        let ghost date = setlist.event_date@;
        let ghost start = old(song_stats_by_name)@;
        let ghost all = show_plays(*setlist);
        let ghost mut done: Seq<Play> = Seq::empty();
        assert(done + all =~= all);
        let mut i: usize = 0;
        while i < sets.len()
            invariant
                i <= sets@.len(),
                sets == &setlist.sets.set,
                date == setlist.event_date@,
                event_date@ == date,
                show_date == parsed_event_date(date),
                all == show_plays(*setlist),
                all == sets_plays(sets@, 0, 0, date),
                start == old(song_stats_by_name)@,
                done + sets_plays(sets@, i as int, show_song_position as nat, date) == all,
                positions_fit(done),
                record_plays(song_stats_by_name@, sets_plays(sets@, i as int, show_song_position as nat, date))
                    == record_plays(start, all),
            decreases sets@.len() - i,
        {
            let ghost before = song_stats_by_name@;
            let ghost pos = show_song_position as nat;
            let ghost this_set = set_plays(sets@[i as int].song@, 0, pos, sets@[i as int].encore is Some, date);
            let ghost rest = sets_plays(sets@, i + 1, pos + played_count(sets@[i as int].song@, 0), date);
            assert(sets_plays(sets@, i as int, pos, date) == this_set + rest);
            assert(done + (this_set + rest) == all);
            assert forall|t: int| 0 <= t < this_set.len() implies #[trigger] this_set[t] == all[done.len() + t] by {
                assert((done + (this_set + rest))[done.len() + t] == this_set[t]);
            }
            let ok = Self::process_set(
                &sets[i],
                &mut show_song_position,
                song_stats_by_name,
                event_date,
                show_date,
            );
            if !ok {
                proof {
                    if counters_fit(start, all) && positions_fit(all) {
                        assert(counters_fit(before, this_set + rest));
                        lemma_counters_fit_prefix(before, this_set, rest);
                        assert forall|t: int| 0 <= t < this_set.len() implies #[trigger] this_set[t].position
                            <= usize::MAX by {
                            assert(all[done.len() + t].position <= usize::MAX);
                        }
                        assert(false);
                    }
                }
                return false;
            }
            proof {
                lemma_record_plays_append(before, this_set, rest);
                assert((done + this_set) + rest =~= done + (this_set + rest));
                assert forall|t: int| 0 <= t < (done + this_set).len() implies #[trigger] (done
                    + this_set)[t].position <= usize::MAX by {
                    if t >= done.len() {
                        assert((done + this_set)[t] == this_set[t - done.len()]);
                    }
                }
                done = done + this_set;
            }
            i += 1;
        }
        proof {
            assert(sets_plays(sets@, i as int, show_song_position as nat, date) =~= Seq::<Play>::empty());
            assert(done + Seq::<Play>::empty() =~= done);
            song_stats_by_name.lemma_counters_fit();
        }
        true
    }

    /// Counts the songs of one set; `show_song_position` is the number of songs the
    /// show has played so far. Tape entries are passed over; each other song is played
    /// at the next position, opens the show at position 1, is in an encore when the set
    /// is one, and closes the set when it is the set's last entry. Gives `false`, and
    /// leaves the counts unfinished, exactly where a counter would pass `u32::MAX` or a
    /// position `usize::MAX`.
    fn process_set(
        set: &SetlistSet,
        show_song_position: &mut usize,
        song_stats_by_name: &mut SongStatsMap,
        event_date: &str,
        show_date: Option<(i32, u32, u32)>,
    ) -> (ok: bool)
        requires
            show_date == parsed_event_date(event_date@),
        ensures
            ({
                let plays = set_plays(
                    set.song@,
                    0,
                    *old(show_song_position) as nat,
                    set.encore is Some,
                    event_date@,
                );
                &&& ok <==> (counters_fit(old(song_stats_by_name)@, plays) && positions_fit(plays))
                &&& ok ==> final(song_stats_by_name)@ == record_plays(old(song_stats_by_name)@, plays)
                &&& ok ==> *final(show_song_position) == *old(show_song_position) + played_count(
                    set.song@,
                    0,
                )
            }),
    {
        let is_encore = set.encore.is_some();
        let songs_in_set_count = set.song.len();
        let ghost songs = set.song@;
        let ghost date = event_date@;
        let ghost start = old(song_stats_by_name)@;
        let ghost pos0 = *old(show_song_position) as nat;
        let ghost full = set_plays(songs, 0, pos0, is_encore, date);
        let ghost mut done: Seq<Play> = Seq::empty();
        let mut song_index_in_set: usize = 0;
        assert(done + full =~= full);
        while song_index_in_set < songs_in_set_count
            invariant
                songs == set.song@,
                songs_in_set_count == songs.len(),
                date == event_date@,
                show_date == parsed_event_date(date),
                is_encore == (set.encore is Some),
                song_index_in_set <= songs_in_set_count,
                full == set_plays(songs, 0, pos0, is_encore, date),
                start == old(song_stats_by_name)@,
                pos0 == *old(show_song_position) as nat,
                done + set_plays(songs, song_index_in_set as int, *show_song_position as nat, is_encore, date)
                    == full,
                positions_fit(done),
                record_plays(
                    song_stats_by_name@,
                    set_plays(songs, song_index_in_set as int, *show_song_position as nat, is_encore, date),
                ) == record_plays(start, full),
                *show_song_position + played_count(songs, song_index_in_set as int) == pos0
                    + played_count(songs, 0),
            decreases songs_in_set_count - song_index_in_set,
        {
            let song = &set.song[song_index_in_set];
            if Self::is_tape_entry(song) {
                song_index_in_set += 1;
                continue;
            }
            let ghost cur_map = song_stats_by_name@;
            let ghost remaining = set_plays(songs, song_index_in_set as int, *show_song_position as nat, is_encore, date);
            assert(remaining[0].position == *show_song_position + 1);
            assert(full[done.len() as int] == remaining[0]);
            if *show_song_position == usize::MAX {
                assert(!positions_fit(full)) by {
                    assert(full[done.len() as int].position > usize::MAX);
                }
                return false;
            }
            *show_song_position = *show_song_position + 1;
            let song_name = Self::resolve_song_name(song);
            let is_opener = *show_song_position == 1;
            let is_set_closer = song_index_in_set == songs_in_set_count - 1;
            let ghost play = Play {
                name: song_name@,
                position: *show_song_position as nat,
                encore: is_encore,
                set_closer: is_set_closer,
                event_date: date,
            };
            let ghost after = set_plays(songs, song_index_in_set + 1, *show_song_position as nat, is_encore, date);
            assert(remaining == seq![play] + after);
            assert(remaining[0] == play);
            assert(remaining.drop_first() =~= after);
            let (total, openers, encores, closers) = match song_stats_by_name.get(song_name.as_str()) {
                Some(st) => (st.total_plays, st.opener_count, st.encore_count, st.closer_count),
                None => (0, 0, 0, 0),
            };
            proof {
                lemma_counters_fit_first(cur_map, remaining);
                assert(record_plays(cur_map, remaining) == record_plays(start, full));
                let cur = stats_or_unplayed(cur_map, song_name@);
                assert(cur.total_plays == total && cur.opener_count == openers && cur.encore_count
                    == encores && cur.closer_count == closers);
            }
            if total == u32::MAX || (is_opener && openers == u32::MAX) || (is_encore && encores
                == u32::MAX) || (is_set_closer && !is_encore && closers == u32::MAX) {
                assert(!counters_fit(cur_map, remaining));
                assert(!counters_fit(start, full));
                return false;
            }
            Self::update_song_stats(
                song_stats_by_name,
                song_name,
                *show_song_position,
                is_opener,
                is_encore,
                is_set_closer,
                event_date,
                show_date,
            );
            assert(song_stats_by_name@ == record_play(cur_map, play));
            proof {
                assert(done.push(play) + after =~= done + remaining);
                done = done.push(play);
            }
            song_index_in_set += 1;
        }
        proof {
            assert(done =~= full);
            song_stats_by_name.lemma_counters_fit();
        }
        true
    }

    /// Counts one play of a song at `song_position`; the opener, encore and set-closer
    /// counts grow as the flags say (a set closer counts only outside an encore), and
    /// the show's date text replaces the last-played one when `show_date` is later than
    /// the date read from it, or that one cannot be read. A song met for the first time
    /// starts from no plays. Only the counters that grow must be below `u32::MAX`.
    fn update_song_stats(
        song_stats_by_name: &mut SongStatsMap,
        song_name: String,
        song_position: usize,
        is_opener: bool,
        is_encore: bool,
        is_set_closer: bool,
        event_date: &str,
        show_date: Option<(i32, u32, u32)>,
    )
        requires
            ({
                let cur = stats_or_unplayed(old(song_stats_by_name)@, song_name@);
                &&& cur.total_plays < u32::MAX
                &&& is_opener ==> cur.opener_count < u32::MAX
                &&& is_encore ==> cur.encore_count < u32::MAX
                &&& (is_set_closer && !is_encore) ==> cur.closer_count < u32::MAX
            }),
        ensures
            final(song_stats_by_name)@ == old(song_stats_by_name)@.insert(
                song_name@,
                counted(
                    stats_or_unplayed(old(song_stats_by_name)@, song_name@),
                    song_position as nat,
                    is_opener,
                    is_encore,
                    is_set_closer,
                    event_date@,
                    show_date,
                ),
            ),
    {
        let ghost start = song_stats_by_name@;
        let previous = song_stats_by_name.insert(
            song_name.clone(),
            SongStats::unplayed(song_name.clone()),
        );
        let mut stats = match previous {
            Some(s) => s,
            None => SongStats::unplayed(song_name.clone()),
        };
        let ghost current = stats@;
        assert(current == stats_or_unplayed(start, song_name@));
        stats.total_plays = stats.total_plays + 1;
        stats.positions_played.push(song_position);
        if is_opener {
            stats.opener_count = stats.opener_count + 1;
        }
        if is_encore {
            stats.encore_count = stats.encore_count + 1;
        }
        if is_set_closer && !is_encore {
            stats.closer_count = stats.closer_count + 1;
        }
        let last_played_date = parse_event_date(stats.last_played.as_str());
        stats.last_played = Self::latest_play(&stats.last_played, last_played_date, event_date, show_date);
        assert(stats@ == counted(current, song_position as nat, is_opener, is_encore, is_set_closer, event_date@, show_date));
        song_stats_by_name.insert(song_name, stats);
        assert(song_stats_by_name@ =~= start.insert(
            song_name@,
            counted(current, song_position as nat, is_opener, is_encore, is_set_closer, event_date@, show_date),
        ));
    }

    /// The date text to keep as the latest play, given the dates read from both texts:
    /// the show's date wins when it was read and the current one was not or is earlier.
    pub fn latest_play(
        current: &String,
        current_date: Option<(i32, u32, u32)>,
        event_date: &str,
        show_date: Option<(i32, u32, u32)>,
    ) -> (latest: String)
        ensures
            latest@ == latest_date_text(current@, current_date, event_date@, show_date),
    {
        match show_date {
            Some(d) => {
                let update_last_played = match current_date {
                    Some(e) => d.0 > e.0 || (d.0 == e.0 && d.1 > e.1) || (d.0 == e.0 && d.1 == e.1
                        && d.2 > e.2),
                    None => true,
                };
                if update_last_played {
                    String::from_str(event_date)
                } else {
                    current.clone()
                }
            },
            None => current.clone(),
        }
    }

    /// Appends to each song's statistics that has positions the mean of its positions.
    /// Gives `false`, and leaves the means unfinished, exactly where the positions of a
    /// song sum to more than `usize::MAX`.
    fn populate_mean_positions(song_stats_by_name: &mut SongStatsMap) -> (ok: bool)
        ensures
            ok <==> sums_fit(old(song_stats_by_name)@),
            ok ==> final(song_stats_by_name)@ == old(song_stats_by_name)@.map_values(
                |st: SongStatsModel| with_mean(st),
            ),
    {
        let ghost start = song_stats_by_name@;
        let mut names: Vec<String> = Vec::new();
        let n = song_stats_by_name.len();
        let mut i: usize = 0;
        {
            let entries = song_stats_by_name.entries();
            while i < n
                invariant
                    n == entries@.len(),
                    i <= n,
                    names@.len() == i,
                    forall|j: int| 0 <= j < i ==> (#[trigger] names@[j])@ == entries@[j].0@,
                decreases n - i,
            {
                names.push(entries[i].0.clone());
                i += 1;
            }
        }
        proof {
            let e = song_stats_by_name.entries_seq();
            assert forall|k: Seq<char>| #[trigger] start.contains_key(k) implies exists|j: int|
                0 <= j < names@.len() && names@[j]@ == k by {
                let j = choose|j: int| 0 <= j < e.len() && e[j].0@ == k;
                assert(names@[j]@ == k);
            }
            assert(forall|j: int, l: int| 0 <= j < l < names@.len() ==> names@[j]@ != names@[l]@);
        }
        let mut i: usize = 0;
        while i < n
            invariant
                i <= n,
                names@.len() == n,
                start == old(song_stats_by_name)@,
                forall|j: int|
                    0 <= j < i ==> position_sum(start[#[trigger] names@[j]@].positions_played)
                        <= usize::MAX,
                forall|k: Seq<char>| #[trigger] start.contains_key(k) ==> exists|j: int|
                    0 <= j < names@.len() && names@[j]@ == k,
                forall|j: int| 0 <= j < n ==> start.contains_key(#[trigger] names@[j]@),
                forall|j: int, l: int| 0 <= j < l < n ==> names@[j]@ != names@[l]@,
                song_stats_by_name@.dom() == start.dom(),
                forall|k: Seq<char>|
                    #[trigger] song_stats_by_name@.contains_key(k) ==> song_stats_by_name@[k]
                        == if (exists|j: int| 0 <= j < i && names@[j]@ == k) {
                        with_mean(start[k])
                    } else {
                        start[k]
                    },
            decreases n - i,
        {
            let name = names[i].clone();
            let ghost key = name@;
            let previous = song_stats_by_name.insert(name.clone(), SongStats::unplayed(name.clone()));
            let mut stats = match previous {
                Some(s) => s,
                None => SongStats::unplayed(name.clone()),
            };
            assert(stats@ == start[key]);
            if stats.positions_played.len() > 0 {
                match Self::mean_of(&stats.positions_played) {
                    Some(mean) => stats.mean_positions_played.push(mean),
                    None => {
                        assert(start.contains_key(key));
                        assert(!sums_fit(start));
                        return false;
                    },
                }
            }
            assert(stats@ == with_mean(start[key]));
            song_stats_by_name.insert(name, stats);
            i += 1;
            proof {
                assert forall|k: Seq<char>| #[trigger] song_stats_by_name@.contains_key(k) implies song_stats_by_name@[k]
                    == if (exists|j: int| 0 <= j < i && names@[j]@ == k) {
                        with_mean(start[k])
                    } else {
                        start[k]
                    } by {
                    if k == key {
                        assert(names@[i - 1]@ == k);
                    } else {
                        if exists|j: int| 0 <= j < i && names@[j]@ == k {
                            let j = choose|j: int| 0 <= j < i && names@[j]@ == k;
                            assert(j < i - 1);
                        }
                    }
                }
                assert(song_stats_by_name@.dom() =~= start.dom());
            }
        }
        proof {
            assert forall|k: Seq<char>| #[trigger] song_stats_by_name@.contains_key(k) implies song_stats_by_name@[k]
                == with_mean(start[k]) by {
                assert(start.contains_key(k));
                let j = choose|j: int| 0 <= j < names@.len() && names@[j]@ == k;
                assert(0 <= j < i && names@[j]@ == k);
            }
            assert(song_stats_by_name@ =~= start.map_values(|st: SongStatsModel| with_mean(st)));
            assert forall|k: Seq<char>| #[trigger] start.contains_key(k) implies position_sum(
                start[k].positions_played,
            ) <= usize::MAX by {
                let j = choose|j: int| 0 <= j < names@.len() && names@[j]@ == k;
            }
        }
        true
    }

    /// The mean of the positions, as their sum and their number; none where the sum
    /// passes `usize::MAX`.
    fn mean_of(positions: &Vec<usize>) -> (mean: Option<MeanPosition>)
        ensures
            mean is Some <==> position_sum(positions@) <= usize::MAX,
            mean matches Some(m) ==> m.total == position_sum(positions@) && m.count
                == positions.len(),
    {
        let mut total: usize = 0;
        let mut i: usize = 0;
        while i < positions.len()
            invariant
                i <= positions.len(),
                total == position_sum(positions@.take(i as int)),
            decreases positions.len() - i,
        {
            assert(positions@.take(i + 1).drop_last() =~= positions@.take(i as int));
            match total.checked_add(positions[i]) {
                Some(t) => total = t,
                None => {
                    proof {
                        lemma_position_sum_prefix(positions@, i + 1);
                    }
                    return None;
                },
            }
            i += 1;
        }
        assert(positions@.take(positions.len() as int) =~= positions@);
        Some(MeanPosition { total: total as u64, count: positions.len() as u64 })
    }

    /// The name to record a song under: its name, else its info, else "Unknown Song".
    fn resolve_song_name(song: &Song) -> (name: String)
        ensures
            name@ == resolved_song_name(*song),
    {
        if Self::has_text(&song.name) {
            return song.name.as_ref().unwrap().clone();
        }
        if Self::has_text(&song.info) {
            return song.info.as_ref().unwrap().clone();
        }
        String::from_str("Unknown Song")
    }

    /// Whether there is a text that is not blank.
    fn has_text(text: &Option<String>) -> (b: bool)
        ensures
            b == has_text(*text),
    {
        match text {
            Some(t) => {
                let chars = chars_of(t.as_str());
                trim_chars(&chars).len() > 0
            },
            None => false,
        }
    }
}

} // verus!

verus! {

/// The plays of the song with the given name, in order.
pub open spec fn plays_named(ps: Seq<Play>, name: Seq<char>) -> Seq<Play>
    decreases ps.len(),
{
    if ps.len() == 0 {
        ps
    } else if ps[0].name == name {
        seq![ps[0]] + plays_named(ps.drop_first(), name)
    } else {
        plays_named(ps.drop_first(), name)
    }
}

/// The positions of the plays.
pub open spec fn positions_of(ps: Seq<Play>) -> Seq<usize>
    decreases ps.len(),
{
    if ps.len() == 0 {
        Seq::empty()
    } else {
        seq![ps[0].position as usize] + positions_of(ps.drop_first())
    }
}

/// How many of the plays opened a show.
pub open spec fn openers_in(ps: Seq<Play>) -> nat
    decreases ps.len(),
{
    if ps.len() == 0 {
        0
    } else {
        (if ps[0].position == 1 { 1nat } else { 0nat }) + openers_in(ps.drop_first())
    }
}

/// How many of the plays closed a set that is not an encore.
pub open spec fn closers_in(ps: Seq<Play>) -> nat
    decreases ps.len(),
{
    if ps.len() == 0 {
        0
    } else {
        (if ps[0].set_closer && !ps[0].encore { 1nat } else { 0nat }) + closers_in(ps.drop_first())
    }
}

/// How many of the plays were in an encore.
pub open spec fn encores_in(ps: Seq<Play>) -> nat
    decreases ps.len(),
{
    if ps.len() == 0 {
        0
    } else {
        (if ps[0].encore { 1nat } else { 0nat }) + encores_in(ps.drop_first())
    }
}

/// The date text kept once the dates of the plays are considered in order, starting from `text`.
pub open spec fn latest_of(text: Seq<char>, ps: Seq<Play>) -> Seq<char>
    decreases ps.len(),
{
    if ps.len() == 0 {
        text
    } else {
        latest_of(
            latest_date_text(
                text,
                parsed_event_date(text),
                ps[0].event_date,
                parsed_event_date(ps[0].event_date),
            ),
            ps.drop_first(),
        )
    }
}

/// What counting the plays adds to the statistics already kept for `name`.
proof fn lemma_record_plays_counts(m: Map<Seq<char>, SongStatsModel>, ps: Seq<Play>, name: Seq<char>)
    ensures
        record_plays(m, ps).contains_key(name) <==> (m.contains_key(name) || plays_named(ps, name).len() > 0),
        (m.contains_key(name) || plays_named(ps, name).len() > 0) ==> {
            let base = if m.contains_key(name) { m[name] } else { unplayed_model(name) };
            let q = plays_named(ps, name);
            let st = record_plays(m, ps)[name];
            &&& st.song_name == base.song_name
            &&& st.total_plays == base.total_plays + q.len()
            &&& st.positions_played == base.positions_played + positions_of(q)
            &&& st.opener_count == base.opener_count + openers_in(q)
            &&& st.closer_count == base.closer_count + closers_in(q)
            &&& st.encore_count == base.encore_count + encores_in(q)
            &&& st.mean_positions_played == base.mean_positions_played
            &&& st.last_played == latest_of(base.last_played, q)
        },
    decreases ps.len(),
{
    if ps.len() == 0 {
        assert(plays_named(ps, name) =~= Seq::<Play>::empty());
        assert(positions_of(Seq::<Play>::empty()) =~= Seq::<usize>::empty());
        if m.contains_key(name) {
            assert(m[name].positions_played + Seq::<usize>::empty() =~= m[name].positions_played);
        }
    } else {
        let p = ps[0];
        let m2 = record_play(m, p);
        lemma_record_plays_counts(m2, ps.drop_first(), name);
        let rest = plays_named(ps.drop_first(), name);
        if p.name == name {
            let q = plays_named(ps, name);
            assert(q == seq![p] + rest);
            assert(q[0] == p);
            assert(q.drop_first() =~= rest);
            assert(positions_of(q) == seq![p.position as usize] + positions_of(rest));
            let base = if m.contains_key(name) { m[name] } else { unplayed_model(name) };
            assert(m2[name] == count_play(base, p));
            assert(base.positions_played.push(p.position as usize) + positions_of(rest)
                =~= base.positions_played + positions_of(q));
            assert(latest_of(base.last_played, q) == latest_of(count_play(base, p).last_played, rest));
        } else {
            assert(plays_named(ps, name) == rest);
            if m.contains_key(name) {
                assert(m2[name] == m[name]);
            }
        }
    }
}

/// Law: the statistics of a song are counts over its plays. A song has statistics
/// exactly when it was played; it was played as often as it has plays, at the
/// positions of those plays in order, opened, closed a regular set and played an
/// encore as often as those plays did; and its one mean position is the sum of those
/// positions over their number.
pub proof fn lemma_song_stats_count_plays(setlists: Seq<Setlist>, name: Seq<char>)
    ensures
        song_stats_of(setlists).contains_key(name) <==> plays_named(all_plays(setlists), name).len() > 0,
        song_stats_of(setlists).contains_key(name) ==> {
            let q = plays_named(all_plays(setlists), name);
            let st = song_stats_of(setlists)[name];
            &&& st.song_name == name
            &&& st.total_plays == q.len()
            &&& st.positions_played == positions_of(q)
            &&& st.opener_count == openers_in(q)
            &&& st.closer_count == closers_in(q)
            &&& st.encore_count == encores_in(q)
            &&& st.mean_positions_played == seq![
                MeanPosition {
                    total: position_sum(positions_of(q)) as u64,
                    count: q.len() as u64,
                },
            ]
            &&& st.last_played == latest_of(Seq::empty(), q)
        },
{
    let m = Map::<Seq<char>, SongStatsModel>::empty();
    lemma_record_plays_counts(m, all_plays(setlists), name);
    let q = plays_named(all_plays(setlists), name);
    if q.len() > 0 {
        assert(Seq::<usize>::empty() + positions_of(q) =~= positions_of(q));
        lemma_positions_len(q);
        assert(Seq::<MeanPosition>::empty().push(
            MeanPosition { total: position_sum(positions_of(q)) as u64, count: q.len() as u64 },
        ) =~= seq![MeanPosition { total: position_sum(positions_of(q)) as u64, count: q.len() as u64 }]);
    }
}

proof fn lemma_positions_len(ps: Seq<Play>)
    ensures
        positions_of(ps).len() == ps.len(),
    decreases ps.len(),
{
    if ps.len() > 0 {
        lemma_positions_len(ps.drop_first());
    }
}

/// Law: the average is taken over every song that was played. Its divisor is the
/// number of shows (one where there are none), and its dividend the number of plays
/// that the statistics count.
pub proof fn lemma_average_counts_plays(setlists: Seq<Setlist>)
    requires
        played_in_shows(setlists, 0) <= i64::MAX,
    ensures
        average_of(setlists).total_songs == all_plays(setlists).len(),
        setlists.len() > 0 ==> average_of(setlists).setlists == setlists.len() as u64,
{
    lemma_plays_are_played_songs(setlists, 0);
}

} // verus!

verus! {

/// A play whose date can be read.
pub open spec fn has_date(p: Play) -> bool {
    parsed_event_date(p.event_date) is Some
}

proof fn lemma_latest_of(text: Seq<char>, ps: Seq<Play>)
    ensures
        latest_of(text, ps) == text || exists|i: int|
            0 <= i < ps.len() && latest_of(text, ps) == (#[trigger] ps[i]).event_date,
        parsed_event_date(text) is None && (forall|i: int| 0 <= i < ps.len() ==> !has_date(
            #[trigger] ps[i],
        )) ==> latest_of(text, ps) == text,
        (parsed_event_date(text) is Some || exists|i: int| 0 <= i < ps.len() && has_date(
            #[trigger] ps[i],
        )) ==> parsed_event_date(latest_of(text, ps)) is Some,
        parsed_event_date(latest_of(text, ps)) is Some ==> {
            let e = parsed_event_date(latest_of(text, ps))->0;
            &&& forall|i: int|
                0 <= i < ps.len() && has_date(#[trigger] ps[i]) ==> !is_later(
                    parsed_event_date(ps[i].event_date)->0,
                    e,
                )
            &&& parsed_event_date(text) is Some ==> !is_later(parsed_event_date(text)->0, e)
        },
    decreases ps.len(),
{
    if ps.len() > 0 {
        let p = ps[0];
        let next = latest_date_text(
            text,
            parsed_event_date(text),
            p.event_date,
            parsed_event_date(p.event_date),
        );
        let rest = ps.drop_first();
        lemma_latest_of(next, rest);
        let r = latest_of(text, ps);
        assert(r == latest_of(next, rest));
        if latest_of(next, rest) != next {
            let i = choose|i: int| 0 <= i < rest.len() && latest_of(next, rest) == (#[trigger] rest[i]).event_date;
            assert(ps[i + 1] == rest[i]);
        } else if next != text {
            assert(next == ps[0].event_date);
        }
        if parsed_event_date(text) is None && (forall|i: int| 0 <= i < ps.len() ==> !has_date(#[trigger] ps[i])) {
            assert(!has_date(ps[0]));
            assert forall|i: int| 0 <= i < rest.len() implies !has_date(#[trigger] rest[i]) by {
                assert(ps[i + 1] == rest[i]);
            }
        }
        if exists|i: int| 0 <= i < ps.len() && has_date(#[trigger] ps[i]) {
            let i = choose|i: int| 0 <= i < ps.len() && has_date(#[trigger] ps[i]);
            if i > 0 {
                assert(rest[i - 1] == ps[i]);
            }
        }
        if parsed_event_date(r) is Some {
            let e = parsed_event_date(r)->0;
            assert forall|i: int| 0 <= i < ps.len() && has_date(#[trigger] ps[i]) implies !is_later(
                parsed_event_date(ps[i].event_date)->0,
                e,
            ) by {
                if i > 0 {
                    assert(rest[i - 1] == ps[i]);
                }
            }
        }
    }
}

/// Law: the date a song was last played on is the latest date that can be read among the
/// shows that played it, whatever the order of the shows; where no such date can be read,
/// none is kept. (chrono reads no date in an empty text.)
pub proof fn lemma_last_played_is_latest(setlists: Seq<Setlist>, name: Seq<char>)
    requires
        song_stats_of(setlists).contains_key(name),
    ensures
        parsed_event_date(Seq::empty()) is None ==> ({
            let q = plays_named(all_plays(setlists), name);
            let last = song_stats_of(setlists)[name].last_played;
            &&& (forall|i: int| 0 <= i < q.len() ==> !has_date(#[trigger] q[i])) ==> last
                == Seq::<char>::empty()
            &&& (exists|i: int| 0 <= i < q.len() && has_date(#[trigger] q[i])) ==> {
                &&& exists|i: int| 0 <= i < q.len() && last == (#[trigger] q[i]).event_date
                &&& parsed_event_date(last) is Some
                &&& forall|i: int|
                    0 <= i < q.len() && has_date(#[trigger] q[i]) ==> !is_later(
                        parsed_event_date(q[i].event_date)->0,
                        parsed_event_date(last)->0,
                    )
            }
        }),
{
    lemma_song_stats_count_plays(setlists, name);
    let q = plays_named(all_plays(setlists), name);
    lemma_latest_of(Seq::empty(), q);
}

/// Law: the date kept as last played is the chronologically latest readable date of
/// the shows that played the song: every play's readable date (y, m, d) comes no later,
/// year first, then month, then day, than the kept date, which is itself the date of
/// one of those shows. (chrono reads no date in an empty text.)
pub proof fn lemma_last_played_is_chronologically_latest(setlists: Seq<Setlist>, name: Seq<char>)
    requires
        song_stats_of(setlists).contains_key(name),
        parsed_event_date(Seq::empty()) is None,
    ensures
        forall|i: int|
            #![trigger plays_named(all_plays(setlists), name)[i]]
            0 <= i < plays_named(all_plays(setlists), name).len() && parsed_event_date(
                plays_named(all_plays(setlists), name)[i].event_date,
            ) is Some ==> ({
                let d = parsed_event_date(plays_named(all_plays(setlists), name)[i].event_date)->0;
                let last = song_stats_of(setlists)[name].last_played;
                &&& parsed_event_date(last) is Some
                &&& exists|j: int|
                    0 <= j < plays_named(all_plays(setlists), name).len() && last
                        == plays_named(all_plays(setlists), name)[j].event_date
                &&& {
                    let k = parsed_event_date(last)->0;
                    ||| d.0 < k.0
                    ||| d.0 == k.0 && d.1 < k.1
                    ||| d.0 == k.0 && d.1 == k.1 && d.2 <= k.2
                }
            }),
{
    lemma_last_played_is_latest(setlists, name);
    let q = plays_named(all_plays(setlists), name);
    assert forall|i: int|
        #![trigger q[i]]
        0 <= i < q.len() && parsed_event_date(q[i].event_date) is Some implies ({
            let d = parsed_event_date(q[i].event_date)->0;
            let last = song_stats_of(setlists)[name].last_played;
            &&& parsed_event_date(last) is Some
            &&& exists|j: int| 0 <= j < q.len() && last == q[j].event_date
            &&& {
                let k = parsed_event_date(last)->0;
                ||| d.0 < k.0
                ||| d.0 == k.0 && d.1 < k.1
                ||| d.0 == k.0 && d.1 == k.1 && d.2 <= k.2
            }
        }) by {
        assert(has_date(q[i]));
    }
}

/// Every entry's statistics carry the name it is filed under.
pub open spec fn names_match(m: Map<Seq<char>, SongStatsModel>) -> bool {
    forall|k: Seq<char>| #[trigger] m.contains_key(k) ==> m[k].song_name == k
}

proof fn lemma_record_plays_keep_names(m: Map<Seq<char>, SongStatsModel>, ps: Seq<Play>)
    requires
        names_match(m),
    ensures
        names_match(record_plays(m, ps)),
    decreases ps.len(),
{
    if ps.len() > 0 {
        let next = record_play(m, ps[0]);
        assert(names_match(next));
        lemma_record_plays_keep_names(next, ps.drop_first());
    }
}

/// Law: the statistics of each song carry that song's name.
pub proof fn lemma_stats_carry_song_names(setlists: Seq<Setlist>)
    ensures
        names_match(song_stats_of(setlists)),
{
    lemma_record_plays_keep_names(Map::empty(), all_plays(setlists));
}

/// The number of positions of a run of plays is the number of plays.
proof fn lemma_positions_of_len(ps: Seq<Play>)
    ensures
        positions_of(ps).len() == ps.len(),
    decreases ps.len(),
{
    if ps.len() > 0 {
        lemma_positions_of_len(ps.drop_first());
    }
}

/// Law: a song opened a show no more often than it was played; the times it closed a
/// regular set and the times it was played in an encore together are no more than its
/// plays; and it has one position for each play.
pub proof fn lemma_role_counts_within_plays(setlists: Seq<Setlist>, name: Seq<char>)
    requires
        song_stats_of(setlists).contains_key(name),
    ensures
        ({
            let st = song_stats_of(setlists)[name];
            &&& st.total_plays >= 1
            &&& st.opener_count <= st.total_plays
            &&& st.closer_count + st.encore_count <= st.total_plays
            &&& st.positions_played.len() == st.total_plays
        }),
{
    lemma_song_stats_count_plays(setlists, name);
    let q = plays_named(all_plays(setlists), name);
    lemma_role_counts_bounded(q);
    lemma_positions_of_len(q);
}

/// The plays counted for the given names, summed (a name without statistics adds none).
pub open spec fn plays_over(m: Map<Seq<char>, SongStatsModel>, names: Seq<Seq<char>>) -> nat
    decreases names.len(),
{
    if names.len() == 0 {
        0
    } else {
        plays_over(m, names.drop_last()) + if m.contains_key(names.last()) {
            m[names.last()].total_plays
        } else {
            0
        }
    }
}

/// A play's song has plays of it.
proof fn lemma_played_song_named(ps: Seq<Play>, i: int)
    requires
        0 <= i < ps.len(),
    ensures
        plays_named(ps, ps[i].name).len() > 0,
    decreases ps.len(),
{
    if i > 0 && ps[0].name != ps[i].name {
        assert(ps.drop_first()[i - 1] == ps[i]);
        lemma_played_song_named(ps.drop_first(), i - 1);
    }
}

/// The sum over names that leave out `k` does not see a change at `k`.
proof fn lemma_plays_over_other(
    m: Map<Seq<char>, SongStatsModel>,
    m2: Map<Seq<char>, SongStatsModel>,
    names: Seq<Seq<char>>,
    k: Seq<char>,
)
    requires
        !names.contains(k),
        forall|j: Seq<char>| j != k ==> (#[trigger] m.contains_key(j) <==> m2.contains_key(j)),
        forall|j: Seq<char>| j != k && #[trigger] m.contains_key(j) ==> m[j].total_plays == m2[j].total_plays,
    ensures
        plays_over(m, names) == plays_over(m2, names),
    decreases names.len(),
{
    if names.len() > 0 {
        assert(names.drop_last().contains(k) ==> names.contains(k));
        lemma_plays_over_other(m, m2, names.drop_last(), k);
        assert(names.last() != k);
    }
}

/// Counting one play adds one to the sum over names that hold its song once.
proof fn lemma_plays_over_record_play(
    m: Map<Seq<char>, SongStatsModel>,
    p: Play,
    names: Seq<Seq<char>>,
)
    requires
        names.no_duplicates(),
        names.contains(p.name),
    ensures
        plays_over(record_play(m, p), names) == plays_over(m, names) + 1,
    decreases names.len(),
{
    let m2 = record_play(m, p);
    let init = names.drop_last();
    if names.last() == p.name {
        assert(!init.contains(p.name)) by {
            if init.contains(p.name) {
                let j = choose|j: int| 0 <= j < init.len() && init[j] == p.name;
                assert(names[j] == names[names.len() - 1]);
            }
        }
        lemma_plays_over_other(m, m2, init, p.name);
    } else {
        assert(init.contains(p.name)) by {
            let j = choose|j: int| 0 <= j < names.len() && names[j] == p.name;
            assert(init[j] == p.name);
        }
        assert(init.no_duplicates());
        lemma_plays_over_record_play(m, p, init);
    }
}

/// Counting a run of plays adds their number to the sum over names holding each of
/// their songs once.
proof fn lemma_plays_over_record_plays(
    m: Map<Seq<char>, SongStatsModel>,
    ps: Seq<Play>,
    names: Seq<Seq<char>>,
)
    requires
        names.no_duplicates(),
        forall|i: int| 0 <= i < ps.len() ==> names.contains(#[trigger] ps[i].name),
    ensures
        plays_over(record_plays(m, ps), names) == plays_over(m, names) + ps.len(),
    decreases ps.len(),
{
    if ps.len() > 0 {
        assert(names.contains(ps[0].name));
        lemma_plays_over_record_play(m, ps[0], names);
        assert forall|i: int| 0 <= i < ps.drop_first().len() implies names.contains(
            #[trigger] ps.drop_first()[i].name,
        ) by {
            assert(ps.drop_first()[i] == ps[i + 1]);
        }
        lemma_plays_over_record_plays(record_play(m, ps[0]), ps.drop_first(), names);
    }
}

/// Law: the plays of all songs together are the songs played: summed over any list
/// that names each song of the statistics once, the plays come to the number of songs
/// played at the shows (tape entries are not counted).
pub proof fn lemma_plays_sum_to_songs_played(setlists: Seq<Setlist>, names: Seq<Seq<char>>)
    requires
        names.no_duplicates(),
        forall|k: Seq<char>| #[trigger] song_stats_of(setlists).contains_key(k) ==> names.contains(k),
    ensures
        plays_over(song_stats_of(setlists), names) == played_in_shows(setlists, 0),
{
    let all = all_plays(setlists);
    let empty = Map::<Seq<char>, SongStatsModel>::empty();
    let m = record_plays(empty, all);
    assert forall|i: int| 0 <= i < all.len() implies names.contains(#[trigger] all[i].name) by {
        lemma_played_song_named(all, i);
        lemma_record_plays_counts(empty, all, all[i].name);
        assert(song_stats_of(setlists).contains_key(all[i].name));
    }
    lemma_plays_over_record_plays(empty, all, names);
    lemma_plays_over_empty(names);
    lemma_plays_over_with_mean(m, names);
    lemma_plays_are_played_songs(setlists, 0);
}

proof fn lemma_plays_over_empty(names: Seq<Seq<char>>)
    ensures
        plays_over(Map::empty(), names) == 0,
    decreases names.len(),
{
    if names.len() > 0 {
        lemma_plays_over_empty(names.drop_last());
    }
}

proof fn lemma_plays_over_with_mean(m: Map<Seq<char>, SongStatsModel>, names: Seq<Seq<char>>)
    ensures
        plays_over(m.map_values(|st: SongStatsModel| with_mean(st)), names) == plays_over(m, names),
    decreases names.len(),
{
    if names.len() > 0 {
        lemma_plays_over_with_mean(m, names.drop_last());
    }
}

} // verus!
