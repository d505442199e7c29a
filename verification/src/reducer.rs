//! Turns each artist's song statistics into a setlist-shaped playlist.
//!
//! The most played songs are chosen, as many as the rounded-up average setlist length
//! plus three, and then ordered like a show: songs that exceptionally often open a show
//! first, then the regular songs by their mean position, then songs that exceptionally
//! often close a set, then encore songs.
use crate::models::{
    ArtistAnalysis, ArtistAnalysisCollection, ArtistSongData, PlaylistData, SetlistAverage,
    StreamingService,
};
use crate::ordering::{
    compare_u128, compare_u64, flip, flip_rank, frac_order, int_order, lemma_lex_append,
    lemma_lex_flip, lemma_lex_single, lemma_lex_trans, lex_order, then, then_rank, valid_key,
    Frac, Rank,
};
use crate::song_stats::{MeanPosition, SongStats, SongStatsMap};
use crate::text::chars_of;
use std::collections::BTreeMap;
use vstd::prelude::*;

verus! {

/// The part of a show that a song belongs to.
#[derive(Clone, Copy, PartialEq, Eq, Structural, Debug)]
pub enum RoleBucket {
    Opener,
    Regular,
    Closer,
    Encore,
}

/// A song needs at least this many plays to count as an opener, closer or encore song.
pub const MIN_ROLE_PLAYS: u32 = 3;

/// Songs are added to the rounded-up average setlist length, which tends to be low.
pub const TARGET_SETLIST_SIZE_OFFSET: u64 = 3;

/// A role rate is exceptional from 60 % on: `count / total >= 3 / 5`.
pub open spec fn is_exceptional(count: u32, total: u32) -> bool {
    5 * count >= 3 * total
}

/// The role of a song: the most frequent of opener, closer and encore (preferred in that
/// order on ties) when the song was played at least three times and has that role in at
/// least 60 % of its plays; else regular.
pub open spec fn role_bucket(st: SongStats) -> RoleBucket {
    if st.total_plays < MIN_ROLE_PLAYS {
        RoleBucket::Regular
    } else if st.opener_count >= st.closer_count && st.opener_count >= st.encore_count {
        if is_exceptional(st.opener_count, st.total_plays) {
            RoleBucket::Opener
        } else {
            RoleBucket::Regular
        }
    } else if st.closer_count >= st.encore_count {
        if is_exceptional(st.closer_count, st.total_plays) {
            RoleBucket::Closer
        } else {
            RoleBucket::Regular
        }
    } else if is_exceptional(st.encore_count, st.total_plays) {
        RoleBucket::Encore
    } else {
        RoleBucket::Regular
    }
}

/// How the rule of `bucket` orders song `a` against song `b`: openers by opener rate
/// (higher first), then mean position (lower first); regular songs by mean position
/// (lower first); closers and encore songs by their rate (higher first), then mean
/// position (higher first).
pub open spec fn bucket_order(bucket: RoleBucket, a: SongStats, b: SongStats) -> Rank {
    match bucket {
        RoleBucket::Opener => then(
            frac_order(rate(b.opener_count, b.total_plays), rate(a.opener_count, a.total_plays)),
            frac_order(mean_key(a), mean_key(b)),
        ),
        RoleBucket::Regular => frac_order(mean_key(a), mean_key(b)),
        RoleBucket::Closer => then(
            frac_order(rate(b.closer_count, b.total_plays), rate(a.closer_count, a.total_plays)),
            frac_order(mean_key(b), mean_key(a)),
        ),
        RoleBucket::Encore => then(
            frac_order(rate(b.encore_count, b.total_plays), rate(a.encore_count, a.total_plays)),
            frac_order(mean_key(b), mean_key(a)),
        ),
    }
}

/// Where a bucket comes in a show.
pub open spec fn bucket_place(b: RoleBucket) -> int {
    match b {
        RoleBucket::Opener => 0,
        RoleBucket::Regular => 1,
        RoleBucket::Closer => 2,
        RoleBucket::Encore => 3,
    }
}

/// `count / total`, taken as 0 when there are no plays.
pub open spec fn rate(count: u32, total: u32) -> Frac {
    if total == 0 {
        (0, 1)
    } else {
        (count as int, total as int)
    }
}

pub open spec fn negate(f: Frac) -> Frac {
    (-f.0, f.1)
}

/// A number above every mean position.
pub open spec fn no_mean() -> Frac {
    (0x1_0000_0000_0000_0000, 1)
}

/// The last mean position recorded, or a number above every mean where there is none.
pub open spec fn mean_key(st: SongStats) -> Frac {
    let means = st.mean_positions_played@;
    if means.len() > 0 && means.last().count > 0 {
        (means.last().total as int, means.last().count as int)
    } else {
        no_mean()
    }
}

/// How a song is placed in a show: by bucket; openers by opener rate (higher first)
/// and then mean position (lower first); regular songs by mean position (lower first);
/// closers and encore songs by their rate (higher first) and then mean position
/// (higher first).
pub open spec fn setlist_key(st: SongStats) -> Seq<Frac> {
    match role_bucket(st) {
        RoleBucket::Opener => seq![
            (0, 1),
            negate(rate(st.opener_count, st.total_plays)),
            mean_key(st),
        ],
        RoleBucket::Regular => seq![(1, 1), mean_key(st), (0, 1)],
        RoleBucket::Closer => seq![
            (2, 1),
            negate(rate(st.closer_count, st.total_plays)),
            negate(mean_key(st)),
        ],
        RoleBucket::Encore => seq![
            (3, 1),
            negate(rate(st.encore_count, st.total_plays)),
            negate(mean_key(st)),
        ],
    }
}

/// More plays first.
pub open spec fn plays_key(st: SongStats) -> Seq<Frac> {
    seq![(-(st.total_plays as int), 1)]
}

/// Names in the order of their characters' code points (that of `String`'s `Ord`).
pub open spec fn name_key(name: Seq<char>) -> Seq<Frac> {
    Seq::new(name.len(), |i: int| (name[i] as int, 1))
}

/// Which songs to choose: the most played first, then in show order, then by name.
pub open spec fn selection_key(st: SongStats) -> Seq<Frac> {
    plays_key(st) + (setlist_key(st) + name_key(st.song_name@))
}

/// How chosen songs are ordered: in show order, then the most played first, then by name.
pub open spec fn ranking_key(st: SongStats) -> Seq<Frac> {
    setlist_key(st) + (plays_key(st) + name_key(st.song_name@))
}

/// The two orders in which songs are sorted.
#[derive(Clone, Copy, PartialEq, Eq, Structural, Debug)]
pub enum SongOrder {
    Selection,
    Ranking,
}

pub open spec fn order_key(order: SongOrder, st: SongStats) -> Seq<Frac> {
    match order {
        SongOrder::Selection => selection_key(st),
        SongOrder::Ranking => ranking_key(st),
    }
}

/// Entry `i` comes no later than entry `j`.
pub open spec fn precedes(
    order: SongOrder,
    entries: Seq<(String, SongStats)>,
    i: int,
    j: int,
) -> bool {
    lex_order(order_key(order, entries[i].1), order_key(order, entries[j].1)) != Rank::After
}

/// The indices name entries in an order in which none comes after a later one.
pub open spec fn sorted_indices(
    order: SongOrder,
    entries: Seq<(String, SongStats)>,
    s: Seq<usize>,
) -> bool {
    forall|a: int, b: int|
        0 <= a < b < s.len() ==> #[trigger] precedes(order, entries, s[a] as int, s[b] as int)
}

pub open spec fn min_nat(a: nat, b: nat) -> nat {
    if a <= b {
        a
    } else {
        b
    }
}

/// `sel` is a choice of the `k` songs that come first in the selection order (all of
/// them where there are fewer), listed in that order.
pub open spec fn is_top_selection(entries: Seq<(String, SongStats)>, k: nat, sel: Seq<usize>) -> bool {
    &&& sel.len() == min_nat(k, entries.len())
    &&& sel.no_duplicates()
    &&& forall|i: int| 0 <= i < sel.len() ==> #[trigger] sel[i] < entries.len()
    &&& sorted_indices(SongOrder::Selection, entries, sel)
    &&& forall|i: int, j: int|
        0 <= i < sel.len() && 0 <= j < entries.len() && !sel.contains(j as usize)
            ==> #[trigger] precedes(SongOrder::Selection, entries, sel[i] as int, j)
}

/// `ranked` lists the songs of `sel` in the ranking order.
pub open spec fn is_ranking_of(
    entries: Seq<(String, SongStats)>,
    sel: Seq<usize>,
    ranked: Seq<usize>,
) -> bool {
    &&& ranked.len() == sel.len()
    &&& ranked.no_duplicates()
    &&& forall|i: int| 0 <= i < ranked.len() ==> sel.contains(#[trigger] ranked[i])
    &&& forall|i: int| 0 <= i < sel.len() ==> ranked.contains(#[trigger] sel[i])
    &&& sorted_indices(SongOrder::Ranking, entries, ranked)
}

/// The names of the ranked entries by position, counted from 1.
pub open spec fn slots_of(entries: Seq<(String, SongStats)>, ranked: Seq<usize>) -> Map<
    usize,
    Seq<char>,
> {
    Map::new(|p: usize| 1 <= p <= ranked.len(), |p: usize| entries[ranked[p - 1] as int].0@)
}

/// `slots` is a playlist of the entries for a target length: the chosen songs by
/// position, in ranking order.
pub open spec fn is_playlist_for(
    entries: Seq<(String, SongStats)>,
    target: nat,
    slots: Map<usize, Seq<char>>,
) -> bool {
    exists|sel: Seq<usize>, ranked: Seq<usize>|
        {
            &&& is_top_selection(entries, target, sel)
            &&& is_ranking_of(entries, sel, ranked)
            &&& slots == slots_of(entries, ranked)
        }
}

pub open spec fn string_map_view(m: Map<usize, String>) -> Map<usize, Seq<char>> {
    m.map_values(|s: String| s@)
}

/// The average setlist length rounded up; 0 unless it is a positive number.
pub open spec fn rounded_up_setlist_size(average: SetlistAverage) -> nat {
    let total = average.total_songs as int;
    let setlists = average.setlists as int;
    if setlists > 0 && total > 0 {
        (total / setlists + if total % setlists == 0 {
            0int
        } else {
            1int
        }) as nat
    } else {
        0
    }
}

/// How many songs a playlist aims at: the rounded-up average plus three, or none.
pub open spec fn target_setlist_size(average: SetlistAverage) -> nat {
    let rounded = rounded_up_setlist_size(average);
    if rounded == 0 {
        0
    } else {
        rounded + TARGET_SETLIST_SIZE_OFFSET as nat
    }
}

pub proof fn lemma_keys_valid(st: SongStats)
    ensures
        valid_key(setlist_key(st)),
        valid_key(selection_key(st)),
        valid_key(ranking_key(st)),
{
    let s = setlist_key(st);
    let p = plays_key(st);
    let n = name_key(st.song_name@);
    assert(valid_key(s));
    assert(valid_key(p));
    assert(valid_key(n));
    assert(valid_key(p + (s + n)));
    assert(valid_key(s + (p + n)));
}

proof fn lemma_order_keys_valid(order: SongOrder, st: SongStats)
    ensures
        valid_key(order_key(order, st)),
{
    lemma_keys_valid(st);
}

proof fn lemma_frac_negate(a: Frac, b: Frac)
    ensures
        frac_order(negate(a), negate(b)) == frac_order(b, a),
{
    assert((-a.0) * b.1 == -(a.0 * b.1)) by (nonlinear_arith);
    assert((-b.0) * a.1 == -(b.0 * a.1)) by (nonlinear_arith);
}

/// Fractions over 1 compare as their numerators.
proof fn lemma_frac_unit(a: int, b: int)
    ensures
        frac_order((a, 1), (b, 1)) == int_order(a, b),
{
    assert(a * 1 == a && b * 1 == b) by (nonlinear_arith);
}

/// For two songs of the same bucket, that bucket's rule is how the rest of their show
/// keys compare.
proof fn lemma_bucket_order_in_key(a: SongStats, b: SongStats)
    requires
        role_bucket(a) == role_bucket(b),
    ensures
        bucket_order(role_bucket(a), a, b) == then(
            frac_order(setlist_key(a)[1], setlist_key(b)[1]),
            frac_order(setlist_key(a)[2], setlist_key(b)[2]),
        ),
{
    lemma_frac_negate(mean_key(a), mean_key(b));
    lemma_frac_negate(rate(a.opener_count, a.total_plays), rate(b.opener_count, b.total_plays));
    lemma_frac_negate(rate(a.closer_count, a.total_plays), rate(b.closer_count, b.total_plays));
    lemma_frac_negate(rate(a.encore_count, a.total_plays), rate(b.encore_count, b.total_plays));
    assert(frac_order((0, 1), (0, 1)) == Rank::Tie) by (nonlinear_arith);
}

/// Comparing three-part keys: the first parts, then the second, then the third.
proof fn lemma_lex_three(a: Seq<Frac>, b: Seq<Frac>)
    requires
        a.len() == 3,
        b.len() == 3,
    ensures
        lex_order(a, b) == then(
            frac_order(a[0], b[0]),
            then(frac_order(a[1], b[1]), frac_order(a[2], b[2])),
        ),
{
    lemma_lex_append(seq![a[0]], seq![a[1], a[2]], seq![b[0]], seq![b[1], b[2]]);
    assert(seq![a[0]] + seq![a[1], a[2]] =~= a);
    assert(seq![b[0]] + seq![b[1], b[2]] =~= b);
    lemma_lex_single(a[0], b[0]);
    lemma_lex_append(seq![a[1]], seq![a[2]], seq![b[1]], seq![b[2]]);
    assert(seq![a[1]] + seq![a[2]] =~= seq![a[1], a[2]]);
    assert(seq![b[1]] + seq![b[2]] =~= seq![b[1], b[2]]);
    lemma_lex_single(a[1], b[1]);
    lemma_lex_single(a[2], b[2]);
}

/// Coming no later in the selection order means having been played at least as often.
proof fn lemma_selection_prefers_plays(a: SongStats, b: SongStats)
    requires
        lex_order(selection_key(a), selection_key(b)) != Rank::After,
    ensures
        a.total_plays >= b.total_plays,
{
    let pa = plays_key(a);
    let pb = plays_key(b);
    lemma_lex_append(pa, setlist_key(a) + name_key(a.song_name@), pb, setlist_key(b) + name_key(
        b.song_name@,
    ));
    assert(pa =~= seq![pa[0]]);
    assert(pb =~= seq![pb[0]]);
    lemma_lex_single(pa[0], pb[0]);
    lemma_frac_unit(-(a.total_plays as int), -(b.total_plays as int));
}

/// Coming no later in the ranking order means belonging to the same or an earlier part
/// of the show.
proof fn lemma_ranking_keeps_show_order(a: SongStats, b: SongStats)
    requires
        lex_order(ranking_key(a), ranking_key(b)) != Rank::After,
    ensures
        bucket_place(role_bucket(a)) <= bucket_place(role_bucket(b)),
{
    let sa = setlist_key(a);
    let sb = setlist_key(b);
    lemma_lex_append(sa, plays_key(a) + name_key(a.song_name@), sb, plays_key(b) + name_key(
        b.song_name@,
    ));
    lemma_lex_three(sa, sb);
    lemma_frac_unit(bucket_place(role_bucket(a)), bucket_place(role_bucket(b)));
}

/// Law: a playlist of a song map holds the first `min(target, songs)` positions, one
/// song each and no song twice, each a song of the map; every song in it was played at
/// least as often as every song left out; and along the positions the songs go from
/// openers through regular songs and closers to encore songs.
pub proof fn lemma_playlist_properties(
    entries: Seq<(String, SongStats)>,
    target: nat,
    slots: Map<usize, Seq<char>>,
)
    requires
        crate::song_stats::distinct_keys(entries),
        entries.len() <= usize::MAX,
        is_playlist_for(entries, target, slots),
    ensures
        forall|p: usize| #[trigger] slots.contains_key(p) <==> 1 <= p <= min_nat(target, entries.len()),
        forall|p: usize, q: usize|
            slots.contains_key(p) && slots.contains_key(q) && p != q ==> #[trigger] slots[p]
                != #[trigger] slots[q],
        forall|p: usize|
            #[trigger] slots.contains_key(p) ==> exists|i: int|
                0 <= i < entries.len() && entries[i].0@ == slots[p],
        forall|p: usize, j: int|
            #[trigger] slots.contains_key(p) && 0 <= j < entries.len() && !slots.values().contains(
                #[trigger] entries[j].0@,
            ) ==> exists|i: int|
                0 <= i < entries.len() && entries[i].0@ == slots[p]
                    && entries[i].1.total_plays >= entries[j].1.total_plays,
        forall|p: usize, q: usize, i: int, j: int|
            #![trigger slots[p], slots[q], entries[i], entries[j]]
            slots.contains_key(p) && slots.contains_key(q) && p < q && 0 <= i < entries.len() && 0
                <= j < entries.len() && entries[i].0@ == slots[p] && entries[j].0@ == slots[q]
                ==> bucket_place(role_bucket(entries[i].1)) <= bucket_place(
                role_bucket(entries[j].1),
            ),
{
    let (sel, ranked) = choose|sel: Seq<usize>, ranked: Seq<usize>|
        {
            &&& is_top_selection(entries, target, sel)
            &&& is_ranking_of(entries, sel, ranked)
            &&& slots == slots_of(entries, ranked)
        };
    assert forall|p: usize| #[trigger] slots.contains_key(p) implies exists|i: int|
        0 <= i < entries.len() && entries[i].0@ == slots[p] by {
        assert(sel.contains(ranked[p - 1]));
        let k = choose|k: int| 0 <= k < sel.len() && sel[k] == ranked[p - 1];
        assert(sel[k] < entries.len());
        assert(entries[ranked[p - 1] as int].0@ == slots[p]);
    }
    assert forall|p: usize, q: usize|
        slots.contains_key(p) && slots.contains_key(q) && p != q implies #[trigger] slots[p]
            != #[trigger] slots[q] by {
        assert(sel.contains(ranked[p - 1]));
        assert(sel.contains(ranked[q - 1]));
        let kp = choose|k: int| 0 <= k < sel.len() && sel[k] == ranked[p - 1];
        let kq = choose|k: int| 0 <= k < sel.len() && sel[k] == ranked[q - 1];
        assert(sel[kp] < entries.len());
        assert(sel[kq] < entries.len());
        assert(ranked[p - 1] != ranked[q - 1]);
    }
    assert forall|p: usize, j: int|
        #[trigger] slots.contains_key(p) && 0 <= j < entries.len() && !slots.values().contains(
            #[trigger] entries[j].0@,
        ) implies exists|i: int|
        0 <= i < entries.len() && entries[i].0@ == slots[p] && entries[i].1.total_plays
            >= entries[j].1.total_plays by {
        let r = ranked[p - 1];
        assert(sel.contains(r));
        let k = choose|k: int| 0 <= k < sel.len() && sel[k] == r;
        assert(sel[k] < entries.len());
        if sel.contains(j as usize) {
            let l = choose|l: int| 0 <= l < sel.len() && sel[l] == j as usize;
            assert(ranked.contains(sel[l]));
            let m = choose|m: int| 0 <= m < ranked.len() && ranked[m] == sel[l];
            let pm = (m + 1) as usize;
            assert(slots.contains_key(pm));
            assert(slots[pm] == entries[j].0@);
            assert(slots.values().contains(entries[j].0@));
        }
        assert(precedes(SongOrder::Selection, entries, sel[k] as int, j));
        lemma_selection_prefers_plays(entries[r as int].1, entries[j].1);
    }
    assert forall|p: usize, q: usize, i: int, j: int|
        #![trigger slots[p], slots[q], entries[i], entries[j]]
        slots.contains_key(p) && slots.contains_key(q) && p < q && 0 <= i < entries.len() && 0 <= j
            < entries.len() && entries[i].0@ == slots[p] && entries[j].0@ == slots[q] implies bucket_place(
        role_bucket(entries[i].1),
    ) <= bucket_place(role_bucket(entries[j].1)) by {
        let a = p - 1;
        let b = q - 1;
        assert(sel.contains(ranked[a]));
        assert(sel.contains(ranked[b]));
        let ka = choose|k: int| 0 <= k < sel.len() && sel[k] == ranked[a];
        let kb = choose|k: int| 0 <= k < sel.len() && sel[k] == ranked[b];
        assert(sel[ka] < entries.len());
        assert(sel[kb] < entries.len());
        assert(ranked[a] as int == i);
        assert(ranked[b] as int == j);
        assert(precedes(SongOrder::Ranking, entries, ranked[a] as int, ranked[b] as int));
        lemma_ranking_keeps_show_order(entries[i].1, entries[j].1);
    }
}

/// Law: a playlist aims at three songs more than the smallest whole number of songs
/// that is at least the average `total_songs / setlists`: with `t` songs aimed at, where
/// the average is a positive number, `(t - 4) * setlists < total_songs <= (t - 3) *
/// setlists`; where it is not (no songs, no setlists, or a negative total), none.
pub proof fn lemma_target_is_rounded_up_average_plus_three(average: SetlistAverage)
    ensures
        ({
            let t = target_setlist_size(average) as int;
            let total = average.total_songs as int;
            let s = average.setlists as int;
            &&& (total <= 0 || s == 0) ==> t == 0
            &&& (total > 0 && s > 0) ==> (t - 4) * s < total <= (t - 3) * s
        }),
{
    let total = average.total_songs as int;
    let s = average.setlists as int;
    if total > 0 && s > 0 {
        vstd::arithmetic::div_mod::lemma_fundamental_div_mod(total, s);
        vstd::arithmetic::div_mod::lemma_mod_pos_bound(total, s);
        let q = total / s;
        let r = total % s;
        assert(q >= 0) by (nonlinear_arith)
            requires
                total == s * q + r,
                0 <= r < s,
                total > 0,
        ;
        let u = q + if r == 0 { 0int } else { 1int };
        assert(u >= 1) by (nonlinear_arith)
            requires
                total == s * q + r,
                0 <= r < s,
                total > 0,
                q >= 0,
                u == q + if r == 0 { 0int } else { 1int },
        ;
        assert(rounded_up_setlist_size(average) == u);
        assert((u - 1) * s < total <= u * s) by (nonlinear_arith)
            requires
                total == s * q + r,
                0 <= r < s,
                u == q + if r == 0 { 0int } else { 1int },
        ;
    }
}

/// The song has a last mean position over a positive number of positions.
pub open spec fn has_last_mean(st: SongStats) -> bool {
    st.mean_positions_played@.len() > 0 && st.mean_positions_played@.last().count > 0
}

/// Song `x` may come before song `y` of the same part of a show, said with the counts:
/// an opener, closer or encore song has at least the rate of that role of the other
/// (`count_x / total_x >= count_y / total_y`), and at equal rates an opener has the lower
/// or equal mean position and a closer or encore song the higher or equal one; a
/// regular song has the lower or equal mean position. Means are compared where both
/// songs have one.
pub open spec fn part_ordered(x: SongStats, y: SongStats) -> bool {
    let mx = x.mean_positions_played@.last();
    let my = y.mean_positions_played@.last();
    let both_means = has_last_mean(x) && has_last_mean(y);
    let mean_le = mx.total * my.count <= my.total * mx.count;
    let mean_ge = my.total * mx.count <= mx.total * my.count;
    match role_bucket(x) {
        RoleBucket::Opener => {
            &&& y.opener_count * x.total_plays <= x.opener_count * y.total_plays
            &&& (y.opener_count * x.total_plays == x.opener_count * y.total_plays && both_means)
                ==> mean_le
        },
        RoleBucket::Regular => both_means ==> mean_le,
        RoleBucket::Closer => {
            &&& y.closer_count * x.total_plays <= x.closer_count * y.total_plays
            &&& (y.closer_count * x.total_plays == x.closer_count * y.total_plays && both_means)
                ==> mean_ge
        },
        RoleBucket::Encore => {
            &&& y.encore_count * x.total_plays <= x.encore_count * y.total_plays
            &&& (y.encore_count * x.total_plays == x.encore_count * y.total_plays && both_means)
                ==> mean_ge
        },
    }
}

/// Coming no later in the ranking order, within one part of the show, is what
/// `part_ordered` says.
proof fn lemma_ranking_orders_within_part(a: SongStats, b: SongStats)
    requires
        lex_order(ranking_key(a), ranking_key(b)) != Rank::After,
        role_bucket(a) == role_bucket(b),
    ensures
        part_ordered(a, b),
{
    let sa = setlist_key(a);
    let sb = setlist_key(b);
    lemma_lex_append(sa, plays_key(a) + name_key(a.song_name@), sb, plays_key(b) + name_key(
        b.song_name@,
    ));
    lemma_lex_three(sa, sb);
    lemma_frac_unit(bucket_place(role_bucket(a)), bucket_place(role_bucket(b)));
    lemma_frac_negate(mean_key(a), mean_key(b));
    lemma_frac_negate(rate(a.opener_count, a.total_plays), rate(b.opener_count, b.total_plays));
    lemma_frac_negate(rate(a.closer_count, a.total_plays), rate(b.closer_count, b.total_plays));
    lemma_frac_negate(rate(a.encore_count, a.total_plays), rate(b.encore_count, b.total_plays));
    assert(frac_order((0, 1), (0, 1)) == Rank::Tie) by (nonlinear_arith);
    let ma = a.mean_positions_played@.last();
    let mb = b.mean_positions_played@.last();
    if has_last_mean(a) && has_last_mean(b) {
        assert(mean_key(a) == (ma.total as int, ma.count as int));
        assert(mean_key(b) == (mb.total as int, mb.count as int));
    }
}

/// Law: within each part of a playlist, songs come in their role's order: of two
/// openers, closers or encore songs the earlier has the higher or equal rate of that
/// role (as counts over plays), and at equal rates an earlier opener has the lower or
/// equal mean position and an earlier closer or encore song the higher or equal one;
/// of two regular songs the earlier has the lower or equal mean position.
pub proof fn lemma_playlist_orders_each_part(
    entries: Seq<(String, SongStats)>,
    target: nat,
    slots: Map<usize, Seq<char>>,
)
    requires
        crate::song_stats::distinct_keys(entries),
        is_playlist_for(entries, target, slots),
    ensures
        forall|p: usize, q: usize, i: int, j: int|
            #![trigger slots[p], slots[q], entries[i], entries[j]]
            slots.contains_key(p) && slots.contains_key(q) && p < q && 0 <= i < entries.len() && 0
                <= j < entries.len() && entries[i].0@ == slots[p] && entries[j].0@ == slots[q]
                && role_bucket(entries[i].1) == role_bucket(entries[j].1) ==> part_ordered(
                entries[i].1,
                entries[j].1,
            ),
{
    let (sel, ranked) = choose|sel: Seq<usize>, ranked: Seq<usize>|
        {
            &&& is_top_selection(entries, target, sel)
            &&& is_ranking_of(entries, sel, ranked)
            &&& slots == slots_of(entries, ranked)
        };
    assert forall|p: usize, q: usize, i: int, j: int|
        #![trigger slots[p], slots[q], entries[i], entries[j]]
        slots.contains_key(p) && slots.contains_key(q) && p < q && 0 <= i < entries.len() && 0 <= j
            < entries.len() && entries[i].0@ == slots[p] && entries[j].0@ == slots[q]
            && role_bucket(entries[i].1) == role_bucket(entries[j].1) implies part_ordered(
        entries[i].1,
        entries[j].1,
    ) by {
        let a = p - 1;
        let b = q - 1;
        assert(sel.contains(ranked[a]));
        assert(sel.contains(ranked[b]));
        let ka = choose|k: int| 0 <= k < sel.len() && sel[k] == ranked[a];
        let kb = choose|k: int| 0 <= k < sel.len() && sel[k] == ranked[b];
        assert(sel[ka] < entries.len());
        assert(sel[kb] < entries.len());
        assert(ranked[a] as int == i);
        assert(ranked[b] as int == j);
        assert(precedes(SongOrder::Ranking, entries, ranked[a] as int, ranked[b] as int));
        lemma_ranking_orders_within_part(entries[i].1, entries[j].1);
    }
}

/// Orders the setlists of artists into playlists.
pub struct SetlistDataReducer {
    playlist_name: String,
    streaming_service: StreamingService,
    analysis_collection: ArtistAnalysisCollection,
}

impl SetlistDataReducer {
    pub closed spec fn spec_playlist_name(&self) -> Seq<char> {
        self.playlist_name@
    }

    pub closed spec fn spec_streaming_service(&self) -> StreamingService {
        self.streaming_service
    }

    pub closed spec fn spec_analyses(&self) -> Seq<ArtistAnalysis> {
        self.analysis_collection.artist_analyses@
    }

    pub fn new(
        playlist_name: String,
        streaming_service: StreamingService,
        analysis_collection: ArtistAnalysisCollection,
    ) -> (reducer: Self)
        ensures
            reducer.spec_playlist_name() == playlist_name@,
            reducer.spec_streaming_service() == streaming_service,
            reducer.spec_analyses() == analysis_collection.artist_analyses@,
    {
        Self { playlist_name, streaming_service, analysis_collection }
    }

    /// The playlist: its name, the chosen service, and for each artist, in order, the
    /// artist's playlist.
    pub fn reduce(&self) -> (playlist_data: PlaylistData)
        ensures
            playlist_data.playlist_name@ == self.spec_playlist_name(),
            playlist_data.platforms@ == seq![self.spec_streaming_service()],
            playlist_data.artist_playlists.len() == self.spec_analyses().len(),
            forall|i: int|
                0 <= i < self.spec_analyses().len() ==> {
                    let analysis = #[trigger] self.spec_analyses()[i];
                    let playlist = playlist_data.artist_playlists@[i];
                    &&& playlist.artist@ == analysis.artist_name@
                    &&& is_playlist_for(
                        analysis.song_stats_by_name.entries_seq(),
                        target_setlist_size(analysis.average_songs_per_setlist),
                        string_map_view(playlist.songs_by_position@),
                    )
                },
    {
        let artist_playlists = self.invoke_normal_mode_reduction();
        let platforms = vec![self.streaming_service];
        assert(platforms@ =~= seq![self.streaming_service]);
        PlaylistData { playlist_name: self.playlist_name.clone(), platforms, artist_playlists }
    }

    fn invoke_normal_mode_reduction(&self) -> (artist_playlists: Vec<ArtistSongData>)
        ensures
            artist_playlists.len() == self.spec_analyses().len(),
            forall|i: int|
                0 <= i < self.spec_analyses().len() ==> {
                    let analysis = #[trigger] self.spec_analyses()[i];
                    let playlist = artist_playlists@[i];
                    &&& playlist.artist@ == analysis.artist_name@
                    &&& is_playlist_for(
                        analysis.song_stats_by_name.entries_seq(),
                        target_setlist_size(analysis.average_songs_per_setlist),
                        string_map_view(playlist.songs_by_position@),
                    )
                },
    {
        let analyses = &self.analysis_collection.artist_analyses;
        let mut artist_playlists: Vec<ArtistSongData> = Vec::new();
        let mut i: usize = 0;
        while i < analyses.len()
            invariant
                analyses@ == self.spec_analyses(),
                i <= analyses.len(),
                artist_playlists.len() == i,
                forall|j: int|
                    0 <= j < i ==> {
                        let analysis = #[trigger] analyses@[j];
                        let playlist = artist_playlists@[j];
                        &&& playlist.artist@ == analysis.artist_name@
                        &&& is_playlist_for(
                            analysis.song_stats_by_name.entries_seq(),
                            target_setlist_size(analysis.average_songs_per_setlist),
                            string_map_view(playlist.songs_by_position@),
                        )
                    },
            decreases analyses.len() - i,
        {
            let playlist = Self::reduce_artist(&analyses[i]);
            artist_playlists.push(playlist);
            i += 1;
        }
        artist_playlists
    }

    /// The playlist of one artist.
    pub fn reduce_artist(artist_analysis: &ArtistAnalysis) -> (playlist: ArtistSongData)
        ensures
            playlist.artist@ == artist_analysis.artist_name@,
            is_playlist_for(
                artist_analysis.song_stats_by_name.entries_seq(),
                target_setlist_size(artist_analysis.average_songs_per_setlist),
                string_map_view(playlist.songs_by_position@),
            ),
    {
        let artist = artist_analysis.artist_name.clone();
        let songs_by_position = Self::map_song_stats_to_playlist_slots(
            &artist_analysis.song_stats_by_name,
            artist_analysis.average_songs_per_setlist,
        );
        ArtistSongData { artist, songs_by_position }
    }

    /// The chosen songs by their position in the playlist, counted from 1.
    pub fn map_song_stats_to_playlist_slots(
        song_stats_by_name: &SongStatsMap,
        average_songs_per_setlist: SetlistAverage,
    ) -> (slots: BTreeMap<usize, String>)
        ensures
            is_playlist_for(
                song_stats_by_name.entries_seq(),
                target_setlist_size(average_songs_per_setlist),
                string_map_view(slots@),
            ),
    {
        let target = Self::target_setlist_size(average_songs_per_setlist);
        let entries = song_stats_by_name.entries();
        let selected = Self::select_most_played_songs(entries, target);
        let ranked = Self::rank_songs_for_setlist(entries, &selected);
        let mut slots: BTreeMap<usize, String> = BTreeMap::new();
        let mut i: usize = 0;
        while i < ranked.len()
            invariant
                i <= ranked.len(),
                forall|k: int| 0 <= k < ranked.len() ==> #[trigger] ranked@[k] < entries@.len(),
                string_map_view(slots@) == Map::new(
                    |p: usize| 1 <= p <= i,
                    |p: usize| entries@[ranked@[p - 1] as int].0@,
                ),
            decreases ranked.len() - i,
        {
            let name = entries[ranked[i]].0.clone();
            let ghost before = slots@;
            let ghost nm = name;
            slots.insert(i + 1, name);
            assert(slots@ == before.insert((i + 1) as usize, nm));
            assert(string_map_view(slots@) =~= string_map_view(before).insert((i + 1) as usize, nm@));
            i += 1;
            assert(string_map_view(slots@) =~= Map::new(
                |p: usize| 1 <= p <= i,
                |p: usize| entries@[ranked@[p - 1] as int].0@,
            ));
        }
        assert(string_map_view(slots@) =~= slots_of(entries@, ranked@));
        assert(is_top_selection(entries@, target_setlist_size(average_songs_per_setlist), selected@));
        assert(is_ranking_of(entries@, selected@, ranked@));
        slots
    }

    /// The number of songs to aim at.
    fn target_setlist_size(average_songs_per_setlist: SetlistAverage) -> (size: u64)
        ensures
            size == target_setlist_size(average_songs_per_setlist),
    {
        let rounded_up_setlist_size = Self::rounded_up_setlist_size(average_songs_per_setlist);
        if rounded_up_setlist_size == 0 {
            0
        } else {
            rounded_up_setlist_size + TARGET_SETLIST_SIZE_OFFSET
        }
    }

    /// The average rounded up, or 0 when it is not a positive number.
    fn rounded_up_setlist_size(average_songs_per_setlist: SetlistAverage) -> (size: u64)
        ensures
            size == rounded_up_setlist_size(average_songs_per_setlist),
            size <= i64::MAX as u64 + 1,
    {
        let total = average_songs_per_setlist.total_songs;
        let setlists = average_songs_per_setlist.setlists;
        if setlists > 0 && total > 0 {
            let t = total as u64;
            let whole = t / setlists;
            let part = t % setlists;
            assert(whole <= t) by (nonlinear_arith)
                requires
                    whole == t / setlists,
                    setlists >= 1,
            ;
            if part == 0 {
                whole
            } else {
                whole + 1
            }
        } else {
            0
        }
    }

    /// The `target` songs that come first in the selection order.
    fn select_most_played_songs(entries: &Vec<(String, SongStats)>, target: u64) -> (selected: Vec<usize>)
        ensures
            is_top_selection(entries@, target as nat, selected@),
    {
        let n = entries.len();
        let mut candidates: Vec<usize> = Vec::new();
        let mut i: usize = 0;
        while i < n
            invariant
                n == entries.len(),
                i <= n,
                candidates@.len() == i,
                forall|k: int| 0 <= k < i ==> #[trigger] candidates@[k] == k,
            decreases n - i,
        {
            candidates.push(i);
            i += 1;
        }
        let limit: usize = if target < n as u64 {
            target as usize
        } else {
            n
        };
        let selected = Self::order_indices(entries, &candidates, limit, SongOrder::Selection);
        proof {
            assert forall|a: int, b: int|
                0 <= a < candidates@.len() && 0 <= b < candidates@.len() && a != b implies candidates@[a]
                != candidates@[b] by {}
            assert forall|i: int, j: int|
                0 <= i < selected@.len() && 0 <= j < entries@.len() && !selected@.contains(j as usize)
                    implies #[trigger] precedes(SongOrder::Selection, entries@, selected@[i] as int, j) by {
                assert(candidates@[j] == j as usize);
                assert(candidates@.contains(j as usize));
            }
        }
        selected
    }

    /// The chosen songs in the ranking order.
    fn rank_songs_for_setlist(entries: &Vec<(String, SongStats)>, selected: &Vec<usize>) -> (ranked: Vec<usize>)
        requires
            selected@.no_duplicates(),
            forall|i: int| 0 <= i < selected.len() ==> #[trigger] selected@[i] < entries.len(),
        ensures
            is_ranking_of(entries@, selected@, ranked@),
            forall|i: int| 0 <= i < ranked.len() ==> #[trigger] ranked@[i] < entries.len(),
    {
        Self::order_indices(entries, selected, selected.len(), SongOrder::Ranking)
    }

    /// The first `limit` of the candidate entries in the given order: a selection sort.
    fn order_indices(
        entries: &Vec<(String, SongStats)>,
        candidates: &Vec<usize>,
        limit: usize,
        order: SongOrder,
    ) -> (out: Vec<usize>)
        requires
            limit <= candidates.len(),
            candidates@.no_duplicates(),
            forall|i: int| 0 <= i < candidates.len() ==> #[trigger] candidates@[i] < entries.len(),
        ensures
            out.len() == limit,
            out@.no_duplicates(),
            forall|i: int| 0 <= i < out.len() ==> candidates@.contains(#[trigger] out@[i]),
            forall|i: int| 0 <= i < out.len() ==> #[trigger] out@[i] < entries.len(),
            sorted_indices(order, entries@, out@),
            forall|i: int, c: int|
                0 <= i < out.len() && 0 <= c < candidates.len() && !out@.contains(candidates@[c])
                    ==> #[trigger] precedes(order, entries@, out@[i] as int, candidates@[c] as int),
            limit == candidates.len() ==> forall|c: int|
                0 <= c < candidates.len() ==> out@.contains(#[trigger] candidates@[c]),
    {
        let mut remaining: Vec<usize> = candidates.clone();
        let mut out: Vec<usize> = Vec::new();
        while out.len() < limit
            invariant
                limit <= candidates.len(),
                out.len() <= limit,
                out.len() + remaining.len() == candidates.len(),
                candidates@.no_duplicates(),
                forall|i: int| 0 <= i < candidates.len() ==> #[trigger] candidates@[i] < entries.len(),
                out@.no_duplicates(),
                remaining@.no_duplicates(),
                forall|i: int, j: int|
                    0 <= i < out.len() && 0 <= j < remaining.len() ==> out@[i] != remaining@[j],
                forall|i: int| 0 <= i < out.len() ==> candidates@.contains(#[trigger] out@[i]),
                forall|i: int| 0 <= i < remaining.len() ==> candidates@.contains(#[trigger] remaining@[i]),
                forall|c: int|
                    0 <= c < candidates.len() ==> out@.contains(#[trigger] candidates@[c])
                        || remaining@.contains(candidates@[c]),
                sorted_indices(order, entries@, out@),
                forall|i: int, j: int|
                    0 <= i < out.len() && 0 <= j < remaining.len() ==> #[trigger] precedes(
                        order,
                        entries@,
                        out@[i] as int,
                        remaining@[j] as int,
                    ),
            decreases limit - out.len(),
        {
            assert(remaining.len() > 0);
            assert(remaining@.len() > 0);
            let best = Self::position_of_first(entries, &remaining, order);
            let ghost old_rem = remaining@;
            let ghost old_out = out@;
            let chosen = remaining.remove(best);
            out.push(chosen);
            proof {
                let b = best as int;
                assert(chosen == old_rem[b]);
                assert(forall|j: int|
                    0 <= j < remaining@.len() ==> #[trigger] remaining@[j] == if j < b {
                        old_rem[j]
                    } else {
                        old_rem[j + 1]
                    });
                assert(out@ == old_out.push(chosen));
                assert forall|i: int, j: int|
                    0 <= i < out@.len() && 0 <= j < out@.len() && i != j implies out@[i] != out@[j] by {
                    if i == old_out.len() as int {
                        assert(old_out[j] != old_rem[b]);
                    } else if j == old_out.len() as int {
                        assert(old_out[i] != old_rem[b]);
                    }
                }
                assert forall|j: int|
                    0 <= j < remaining@.len() implies remaining@[j] != chosen by {
                    if j < b {
                        assert(old_rem[j] != old_rem[b]);
                    } else {
                        assert(old_rem[j + 1] != old_rem[b]);
                    }
                }
                assert forall|i: int, j: int|
                    0 <= i < out@.len() && 0 <= j < remaining@.len() implies out@[i]
                        != remaining@[j] by {
                    if i < old_out.len() {
                        if j < b {
                            assert(old_out[i] != old_rem[j]);
                        } else {
                            assert(old_out[i] != old_rem[j + 1]);
                        }
                    }
                }
                assert forall|i: int, j: int|
                    0 <= i < remaining@.len() && 0 <= j < remaining@.len() && i != j implies remaining@[i]
                        != remaining@[j] by {
                    let ii = if i < b { i } else { i + 1 };
                    let jj = if j < b { j } else { j + 1 };
                    assert(old_rem[ii] != old_rem[jj]);
                }
                assert forall|i: int| 0 <= i < out@.len() implies candidates@.contains(
                    #[trigger] out@[i],
                ) by {
                    if i == old_out.len() as int {
                        assert(candidates@.contains(old_rem[b]));
                    } else {
                        assert(out@[i] == old_out[i]);
                    }
                }
                assert forall|i: int| 0 <= i < remaining@.len() implies candidates@.contains(
                    #[trigger] remaining@[i],
                ) by {
                    if i < b {
                        assert(candidates@.contains(old_rem[i]));
                    } else {
                        assert(candidates@.contains(old_rem[i + 1]));
                    }
                }
                assert forall|c: int|
                    0 <= c < candidates.len() implies out@.contains(#[trigger] candidates@[c])
                        || remaining@.contains(candidates@[c]) by {
                    let x = candidates@[c];
                    if old_out.contains(x) {
                        let i = choose|i: int| 0 <= i < old_out.len() && old_out[i] == x;
                        assert(out@[i] == x);
                    } else {
                        assert(old_rem.contains(x));
                        let k = choose|k: int| 0 <= k < old_rem.len() && old_rem[k] == x;
                        if k == b {
                            assert(out@[old_out.len() as int] == x);
                        } else if k < b {
                            assert(remaining@[k] == x);
                        } else {
                            assert(remaining@[k - 1] == x);
                        }
                    }
                }
                assert forall|i: int, j: int| 0 <= i < j < out@.len() implies #[trigger] precedes(
                    order,
                    entries@,
                    out@[i] as int,
                    out@[j] as int,
                ) by {
                    if j == old_out.len() as int {
                        assert(precedes(order, entries@, old_out[i] as int, old_rem[b] as int));
                    } else {
                        assert(precedes(order, entries@, old_out[i] as int, old_out[j] as int));
                    }
                }
                assert forall|i: int, j: int|
                    0 <= i < out@.len() && 0 <= j < remaining@.len() implies #[trigger] precedes(
                        order,
                        entries@,
                        out@[i] as int,
                        remaining@[j] as int,
                    ) by {
                    let jj = if j < b { j } else { j + 1 };
                    assert(remaining@[j] == old_rem[jj]);
                    if i == old_out.len() as int {
                        assert(precedes(order, entries@, old_rem[b] as int, old_rem[jj] as int));
                    } else {
                        assert(precedes(order, entries@, old_out[i] as int, old_rem[jj] as int));
                    }
                }
            }
        }
        proof {
            if limit == candidates.len() {
                assert(remaining@.len() == 0);
                assert forall|c: int| 0 <= c < candidates.len() implies out@.contains(
                    #[trigger] candidates@[c],
                ) by {
                    if remaining@.contains(candidates@[c]) {
                        let k = choose|k: int| 0 <= k < remaining@.len() && remaining@[k] == candidates@[c];
                    }
                }
            }
        }
        out
    }

    /// Where in `positions` stands an entry that comes no later than any other.
    fn position_of_first(entries: &Vec<(String, SongStats)>, positions: &Vec<usize>, order: SongOrder) -> (best: usize)
        requires
            positions.len() > 0,
            forall|i: int| 0 <= i < positions.len() ==> #[trigger] positions@[i] < entries.len(),
        ensures
            best < positions.len(),
            forall|j: int|
                0 <= j < positions.len() ==> #[trigger] precedes(
                    order,
                    entries@,
                    positions@[best as int] as int,
                    positions@[j] as int,
                ),
    {
        let mut best: usize = 0;
        let mut j: usize = 1;
        proof {
            lemma_order_keys_valid(order, entries@[positions@[0] as int].1);
            lemma_lex_flip(
                order_key(order, entries@[positions@[0] as int].1),
                order_key(order, entries@[positions@[0] as int].1),
            );
        }
        while j < positions.len()
            invariant
                1 <= j <= positions.len(),
                best < j,
                forall|i: int| 0 <= i < positions.len() ==> #[trigger] positions@[i] < entries.len(),
                forall|k: int|
                    0 <= k < j ==> #[trigger] precedes(
                        order,
                        entries@,
                        positions@[best as int] as int,
                        positions@[k] as int,
                    ),
            decreases positions.len() - j,
        {
            let r = Self::compare_in_order(
                &entries[positions[j]].1,
                &entries[positions[best]].1,
                order,
            );
            let ghost kj = order_key(order, entries@[positions@[j as int] as int].1);
            let ghost kb = order_key(order, entries@[positions@[best as int] as int].1);
            proof {
                lemma_order_keys_valid(order, entries@[positions@[j as int] as int].1);
                lemma_order_keys_valid(order, entries@[positions@[best as int] as int].1);
                lemma_lex_flip(kj, kb);
                lemma_lex_flip(kj, kj);
            }
            if r == Rank::Before {
                proof {
                    assert forall|k: int| 0 <= k < j + 1 implies #[trigger] precedes(
                        order,
                        entries@,
                        positions@[j as int] as int,
                        positions@[k] as int,
                    ) by {
                        if k < j {
                            assert(precedes(order, entries@, positions@[best as int] as int, positions@[k] as int));
                            let kk = order_key(order, entries@[positions@[k] as int].1);
                            lemma_order_keys_valid(order, entries@[positions@[k] as int].1);
                            lemma_lex_trans(kj, kb, kk);
                        }
                    }
                }
                best = j;
            }
            j += 1;
        }
        best
    }

    /// Compares two songs in the given order.
    fn compare_in_order(a: &SongStats, b: &SongStats, order: SongOrder) -> (r: Rank)
        ensures
            r == lex_order(order_key(order, *a), order_key(order, *b)),
    {
        let plays = compare_u64(b.total_plays as u64, a.total_plays as u64);
        let setlist = Self::compare_for_setlist_order(a, b);
        let names = Self::compare_names(&a.song_name, &b.song_name);
        proof {
            let pa = plays_key(*a);
            let pb = plays_key(*b);
            let sa = setlist_key(*a);
            let sb = setlist_key(*b);
            let na = name_key(a.song_name@);
            let nb = name_key(b.song_name@);
            lemma_lex_single(pa[0], pb[0]);
            lemma_frac_unit(-(a.total_plays as int), -(b.total_plays as int));
            assert(pa =~= seq![pa[0]]);
            assert(pb =~= seq![pb[0]]);
            assert(frac_order(pa[0], pb[0]) == plays);
            lemma_lex_append(pa, sa + na, pb, sb + nb);
            lemma_lex_append(sa, na, sb, nb);
            lemma_lex_append(sa, pa + na, sb, pb + nb);
            lemma_lex_append(pa, na, pb, nb);
        }
        match order {
            SongOrder::Selection => then_rank(plays, then_rank(setlist, names)),
            SongOrder::Ranking => then_rank(setlist, then_rank(plays, names)),
        }
    }

    /// Compares names by the code points of their characters.
    fn compare_names(a: &String, b: &String) -> (r: Rank)
        ensures
            r == lex_order(name_key(a@), name_key(b@)),
    {
        let x = chars_of(a.as_str());
        let y = chars_of(b.as_str());
        let ghost ka = name_key(a@);
        let ghost kb = name_key(b@);
        let mut i: usize = 0;
        assert(ka.skip(0) =~= ka);
        assert(kb.skip(0) =~= kb);
        while i < x.len() && i < y.len()
            invariant
                x@ == a@,
                y@ == b@,
                i <= x.len(),
                i <= y.len(),
                ka == name_key(a@),
                kb == name_key(b@),
                lex_order(ka, kb) == lex_order(ka.skip(i as int), kb.skip(i as int)),
            decreases x.len() - i,
        {
            let ca = x[i];
            let cb = y[i];
            let ghost sa = ka.skip(i as int);
            let ghost sb = kb.skip(i as int);
            assert(sa[0] == (ca as int, 1int));
            assert(sb[0] == (cb as int, 1int));
            proof {
                lemma_frac_unit(ca as int, cb as int);
            }
            assert(lex_order(sa, sb) == then(frac_order(sa[0], sb[0]), lex_order(sa.drop_first(), sb.drop_first())));
            assert(sa.drop_first() =~= ka.skip(i + 1));
            assert(sb.drop_first() =~= kb.skip(i + 1));
            if ca < cb {
                return Rank::Before;
            } else if ca > cb {
                return Rank::After;
            }
            i += 1;
        }
        if x.len() == y.len() {
            assert(ka.skip(i as int) =~= Seq::<Frac>::empty());
            assert(kb.skip(i as int) =~= Seq::<Frac>::empty());
            Rank::Tie
        } else if x.len() < y.len() {
            assert(ka.skip(i as int) =~= Seq::<Frac>::empty());
            Rank::Before
        } else {
            assert(kb.skip(i as int) =~= Seq::<Frac>::empty());
            Rank::After
        }
    }

    /// Compares two songs in show order.
    fn compare_for_setlist_order(a: &SongStats, b: &SongStats) -> (r: Rank)
        ensures
            r == lex_order(setlist_key(*a), setlist_key(*b)),
    {
        let a_bucket = Self::role_bucket_for_song(a);
        let b_bucket = Self::role_bucket_for_song(b);
        let by_bucket = compare_u64(Self::bucket_place(a_bucket), Self::bucket_place(b_bucket));
        proof {
            lemma_lex_three(setlist_key(*a), setlist_key(*b));
            lemma_frac_unit(bucket_place(a_bucket), bucket_place(b_bucket));
            assert(setlist_key(*a)[0] == (bucket_place(a_bucket), 1int));
            assert(setlist_key(*b)[0] == (bucket_place(b_bucket), 1int));
        }
        proof {
            if a_bucket == b_bucket {
                lemma_bucket_order_in_key(*a, *b);
            }
        }
        match by_bucket {
            Rank::Tie => Self::compare_within_bucket(a, b, a_bucket),
            _ => by_bucket,
        }
    }

    fn bucket_place(bucket: RoleBucket) -> (place: u64)
        ensures
            place == bucket_place(bucket),
    {
        match bucket {
            RoleBucket::Opener => 0,
            RoleBucket::Regular => 1,
            RoleBucket::Closer => 2,
            RoleBucket::Encore => 3,
        }
    }

    /// Compares two songs by the rule of the given bucket, whatever their own buckets:
    /// openers by opener rate (higher first) and then mean position (lower first);
    /// regular songs by mean position (lower first); closers and encore songs by their
    /// rate (higher first) and then mean position (higher first).
    fn compare_within_bucket(a: &SongStats, b: &SongStats, bucket: RoleBucket) -> (r: Rank)
        ensures
            r == bucket_order(bucket, *a, *b),
    {
        match bucket {
            RoleBucket::Opener => then_rank(
                Self::compare_rates(Self::opener_rate(b), Self::opener_rate(a)),
                Self::compare_mean_positions(a, b),
            ),
            RoleBucket::Regular => Self::compare_mean_positions(a, b),
            RoleBucket::Closer => then_rank(
                Self::compare_rates(Self::closer_rate(b), Self::closer_rate(a)),
                Self::compare_mean_positions(b, a),
            ),
            RoleBucket::Encore => then_rank(
                Self::compare_rates(Self::encore_rate(b), Self::encore_rate(a)),
                Self::compare_mean_positions(b, a),
            ),
        }
    }

    /// The bucket of a song.
    fn role_bucket_for_song(stats: &SongStats) -> (bucket: RoleBucket)
        ensures
            bucket == role_bucket(*stats),
    {
        if stats.total_plays < MIN_ROLE_PLAYS {
            return RoleBucket::Regular;
        }
        let opener = stats.opener_count as u64;
        let closer = stats.closer_count as u64;
        let encore = stats.encore_count as u64;
        let total = stats.total_plays as u64;
        let (bucket, count) = if opener >= closer && opener >= encore {
            (RoleBucket::Opener, opener)
        } else if closer >= encore {
            (RoleBucket::Closer, closer)
        } else {
            (RoleBucket::Encore, encore)
        };
        if 5 * count >= 3 * total {
            bucket
        } else {
            RoleBucket::Regular
        }
    }

    /// The last mean position of a song, if it has one with a positive count.
    fn mean_position(stats: &SongStats) -> (mean: Option<MeanPosition>)
        ensures
            match mean {
                Some(m) => m.count > 0 && mean_key(*stats) == (m.total as int, m.count as int),
                None => mean_key(*stats) == no_mean(),
            },
    {
        let n = stats.mean_positions_played.len();
        if n > 0 {
            let m = stats.mean_positions_played[n - 1];
            if m.count > 0 {
                return Some(m);
            }
        }
        None
    }

    /// Compares the mean positions of two songs, a song without one last.
    fn compare_mean_positions(a: &SongStats, b: &SongStats) -> (r: Rank)
        ensures
            r == frac_order(mean_key(*a), mean_key(*b)),
    {
        match (Self::mean_position(a), Self::mean_position(b)) {
            (Some(x), Some(y)) => {
                assert(x.total as u128 * y.count as u128 <= u64::MAX as u128 * u64::MAX as u128)
                    by (nonlinear_arith);
                assert(y.total as u128 * x.count as u128 <= u64::MAX as u128 * u64::MAX as u128)
                    by (nonlinear_arith);
                compare_u128(x.total as u128 * y.count as u128, y.total as u128 * x.count as u128)
            },
            (Some(x), None) => {
                assert(x.total as int * 1 < 0x1_0000_0000_0000_0000 * x.count as int);
                Rank::Before
            },
            (None, Some(y)) => {
                assert(y.total as int * 1 < 0x1_0000_0000_0000_0000 * y.count as int);
                Rank::After
            },
            (None, None) => Rank::Tie,
        }
    }

    /// Compares two rates by value.
    fn compare_rates(a: (u64, u64), b: (u64, u64)) -> (r: Rank)
        requires
            a.0 <= u32::MAX,
            a.1 <= u32::MAX,
            b.0 <= u32::MAX,
            b.1 <= u32::MAX,
        ensures
            r == frac_order((a.0 as int, a.1 as int), (b.0 as int, b.1 as int)),
    {
        assert(a.0 * b.1 <= u32::MAX * u32::MAX) by (nonlinear_arith)
            requires
                a.0 <= u32::MAX,
                b.1 <= u32::MAX,
        ;
        assert(b.0 * a.1 <= u32::MAX * u32::MAX) by (nonlinear_arith)
            requires
                b.0 <= u32::MAX,
                a.1 <= u32::MAX,
        ;
        compare_u64(a.0 * b.1, b.0 * a.1)
    }

    fn rate_of(count: u32, total: u32) -> (r: (u64, u64))
        ensures
            (r.0 as int, r.1 as int) == rate(count, total),
            r.0 <= u32::MAX,
            r.1 <= u32::MAX,
    {
        if total == 0 {
            (0, 1)
        } else {
            (count as u64, total as u64)
        }
    }

    /// How often the song opened a show, per play.
    fn opener_rate(stats: &SongStats) -> (r: (u64, u64))
        ensures
            (r.0 as int, r.1 as int) == rate(stats.opener_count, stats.total_plays),
            r.0 <= u32::MAX,
            r.1 <= u32::MAX,
    {
        Self::rate_of(stats.opener_count, stats.total_plays)
    }

    /// How often the song closed a set, per play.
    fn closer_rate(stats: &SongStats) -> (r: (u64, u64))
        ensures
            (r.0 as int, r.1 as int) == rate(stats.closer_count, stats.total_plays),
            r.0 <= u32::MAX,
            r.1 <= u32::MAX,
    {
        Self::rate_of(stats.closer_count, stats.total_plays)
    }

    /// How often the song was played in an encore, per play.
    fn encore_rate(stats: &SongStats) -> (r: (u64, u64))
        ensures
            (r.0 as int, r.1 as int) == rate(stats.encore_count, stats.total_plays),
            r.0 <= u32::MAX,
            r.1 <= u32::MAX,
    {
        Self::rate_of(stats.encore_count, stats.total_plays)
    }
}

} // verus!

verus! {

/// No two entries carry the same song name in their statistics.
pub open spec fn distinct_song_names(entries: Seq<(String, SongStats)>) -> bool {
    forall|i: int, j: int|
        0 <= i < j < entries.len() ==> entries[i].1.song_name@ != entries[j].1.song_name@
}

/// Entries filed under distinct names whose statistics carry those names carry distinct
/// song names, as the statistics of shows do.
pub proof fn lemma_filed_names_are_distinct(entries: Seq<(String, SongStats)>)
    requires
        crate::song_stats::distinct_keys(entries),
        crate::processor::names_match(crate::song_stats::entries_map(entries)),
    ensures
        distinct_song_names(entries),
{
    crate::song_stats::lemma_entries_map_domain(entries);
    assert forall|i: int, j: int| 0 <= i < j < entries.len() implies entries[i].1.song_name@
        != entries[j].1.song_name@ by {
        let m = crate::song_stats::entries_map(entries);
        assert(m.contains_key(entries[i].0@));
        assert(m.contains_key(entries[j].0@));
    }
}

proof fn lemma_lex_reflexive(a: Seq<Frac>)
    ensures
        lex_order(a, a) == Rank::Tie,
{
    lemma_lex_flip(a, a);
}

/// Names tie only when they are the same name.
proof fn lemma_name_key_tie(x: Seq<char>, y: Seq<char>)
    requires
        lex_order(name_key(x), name_key(y)) == Rank::Tie,
    ensures
        x == y,
    decreases x.len(),
{
    if x.len() > 0 && y.len() > 0 {
        assert(name_key(x).drop_first() =~= name_key(x.drop_first()));
        assert(name_key(y).drop_first() =~= name_key(y.drop_first()));
        assert(name_key(x)[0] == (x[0] as int, 1int));
        assert(name_key(y)[0] == (y[0] as int, 1int));
        lemma_frac_unit(x[0] as int, y[0] as int);
        lemma_name_key_tie(x.drop_first(), y.drop_first());
        assert(x =~= seq![x[0]] + x.drop_first());
        assert(y =~= seq![y[0]] + y.drop_first());
    }
}

/// Two songs tie in either order only when their statistics carry the same name.
proof fn lemma_order_key_tie(order: SongOrder, a: SongStats, b: SongStats)
    requires
        lex_order(order_key(order, a), order_key(order, b)) == Rank::Tie,
    ensures
        a.song_name@ == b.song_name@,
{
    let (pa, pb) = (plays_key(a), plays_key(b));
    let (sa, sb) = (setlist_key(a), setlist_key(b));
    let (na, nb) = (name_key(a.song_name@), name_key(b.song_name@));
    match order {
        SongOrder::Selection => {
            lemma_lex_append(pa, sa + na, pb, sb + nb);
            lemma_lex_append(sa, na, sb, nb);
        },
        SongOrder::Ranking => {
            lemma_lex_append(sa, pa + na, sb, pb + nb);
            lemma_lex_append(pa, na, pb, nb);
        },
    }
    lemma_name_key_tie(a.song_name@, b.song_name@);
}

/// With distinct song names, two entries that each come no later than the other are the
/// same entry.
proof fn lemma_precedes_antisymmetric(
    order: SongOrder,
    entries: Seq<(String, SongStats)>,
    i: int,
    j: int,
)
    requires
        distinct_song_names(entries),
        0 <= i < entries.len(),
        0 <= j < entries.len(),
        precedes(order, entries, i, j),
        precedes(order, entries, j, i),
    ensures
        i == j,
{
    lemma_lex_flip(order_key(order, entries[i].1), order_key(order, entries[j].1));
    lemma_order_key_tie(order, entries[i].1, entries[j].1);
}

/// Entry `s[i]` comes no later than every entry of the universe that is not among the
/// first `i` of `s`.
spec fn leads(
    order: SongOrder,
    entries: Seq<(String, SongStats)>,
    s: Seq<usize>,
    i: int,
    universe: spec_fn(usize) -> bool,
) -> bool {
    forall|j: usize|
        universe(j) && !s.take(i).contains(j) ==> #[trigger] precedes(
            order,
            entries,
            s[i] as int,
            j as int,
        )
}

/// Two lists of entries of a universe in which each entry leads the rest are the same
/// list, when no two entries tie.
proof fn lemma_same_leading_order(
    order: SongOrder,
    entries: Seq<(String, SongStats)>,
    s: Seq<usize>,
    t: Seq<usize>,
    universe: spec_fn(usize) -> bool,
    k: int,
)
    requires
        distinct_song_names(entries),
        s.len() == t.len(),
        s.no_duplicates(),
        t.no_duplicates(),
        0 <= k <= s.len(),
        forall|i: int|
            0 <= i < s.len() ==> universe(#[trigger] s[i]) && s[i] < entries.len() && leads(
                order,
                entries,
                s,
                i,
                universe,
            ),
        forall|i: int|
            0 <= i < t.len() ==> universe(#[trigger] t[i]) && t[i] < entries.len() && leads(
                order,
                entries,
                t,
                i,
                universe,
            ),
    ensures
        s.take(k) == t.take(k),
    decreases k,
{
    if k > 0 {
        let i = k - 1;
        lemma_same_leading_order(order, entries, s, t, universe, i);
        assert(!s.take(i).contains(s[i])) by {
            if s.take(i).contains(s[i]) {
                let m = choose|m: int| 0 <= m < i && s.take(i)[m] == s[i];
                assert(s[m] == s[i]);
            }
        }
        assert(!t.take(i).contains(t[i])) by {
            if t.take(i).contains(t[i]) {
                let m = choose|m: int| 0 <= m < i && t.take(i)[m] == t[i];
                assert(t[m] == t[i]);
            }
        }
        assert(universe(s[i]) && universe(t[i]));
        assert(precedes(order, entries, t[i] as int, s[i] as int));
        assert(precedes(order, entries, s[i] as int, t[i] as int));
        lemma_precedes_antisymmetric(order, entries, s[i] as int, t[i] as int);
        assert(s.take(k) =~= s.take(i).push(s[i]));
        assert(t.take(k) =~= t.take(i).push(t[i]));
    }
}

/// An entry that is in a list but not among its first `i` stands at `i` or later.
proof fn lemma_later_member(s: Seq<usize>, i: int, j: usize) -> (m: int)
    requires
        0 <= i <= s.len(),
        s.contains(j),
        !s.take(i).contains(j),
    ensures
        i <= m < s.len(),
        s[m] == j,
{
    let m = choose|m: int| 0 <= m < s.len() && s[m] == j;
    if m < i {
        assert(s.take(i)[m] == j);
    }
    m
}

proof fn lemma_selection_leads(
    entries: Seq<(String, SongStats)>,
    target: nat,
    sel: Seq<usize>,
    i: int,
)
    requires
        is_top_selection(entries, target, sel),
        0 <= i < sel.len(),
    ensures
        leads(SongOrder::Selection, entries, sel, i, |j: usize| j < entries.len()),
{
    let universe = |j: usize| j < entries.len();
    assert forall|j: usize| universe(j) && !sel.take(i).contains(j) implies #[trigger] precedes(
        SongOrder::Selection,
        entries,
        sel[i] as int,
        j as int,
    ) by {
        if sel.contains(j) {
            let m = lemma_later_member(sel, i, j);
            if m == i {
                lemma_lex_reflexive(order_key(SongOrder::Selection, entries[j as int].1));
            } else {
                assert(precedes(SongOrder::Selection, entries, sel[i] as int, sel[m] as int));
            }
        } else {
            assert(precedes(SongOrder::Selection, entries, sel[i] as int, j as int));
        }
    }
}

proof fn lemma_ranking_leads(
    entries: Seq<(String, SongStats)>,
    sel: Seq<usize>,
    ranked: Seq<usize>,
    i: int,
)
    requires
        is_ranking_of(entries, sel, ranked),
        0 <= i < ranked.len(),
    ensures
        leads(SongOrder::Ranking, entries, ranked, i, |j: usize| sel.contains(j)),
{
    let universe = |j: usize| sel.contains(j);
    assert forall|j: usize| universe(j) && !ranked.take(i).contains(j) implies #[trigger] precedes(
        SongOrder::Ranking,
        entries,
        ranked[i] as int,
        j as int,
    ) by {
        let k = choose|k: int| 0 <= k < sel.len() && sel[k] == j;
        assert(ranked.contains(sel[k]));
        let m = lemma_later_member(ranked, i, j);
        if m == i {
            lemma_lex_reflexive(order_key(SongOrder::Ranking, entries[j as int].1));
        } else {
            assert(precedes(SongOrder::Ranking, entries, ranked[i] as int, ranked[m] as int));
        }
    }
}

/// Law: the playlist is determined by the song statistics and the target length: where
/// no song name occurs twice, two playlists for the same statistics and target are the
/// same playlist.
pub proof fn lemma_playlist_is_unique(
    entries: Seq<(String, SongStats)>,
    target: nat,
    a: Map<usize, Seq<char>>,
    b: Map<usize, Seq<char>>,
)
    requires
        distinct_song_names(entries),
        is_playlist_for(entries, target, a),
        is_playlist_for(entries, target, b),
    ensures
        a == b,
{
    let (sel_a, ranked_a) = choose|sel: Seq<usize>, ranked: Seq<usize>|
        {
            &&& is_top_selection(entries, target, sel)
            &&& is_ranking_of(entries, sel, ranked)
            &&& a == slots_of(entries, ranked)
        };
    let (sel_b, ranked_b) = choose|sel: Seq<usize>, ranked: Seq<usize>|
        {
            &&& is_top_selection(entries, target, sel)
            &&& is_ranking_of(entries, sel, ranked)
            &&& b == slots_of(entries, ranked)
        };
    let all = |j: usize| j < entries.len();
    assert forall|i: int| 0 <= i < sel_a.len() implies all(#[trigger] sel_a[i]) && sel_a[i]
        < entries.len() && leads(SongOrder::Selection, entries, sel_a, i, all) by {
        lemma_selection_leads(entries, target, sel_a, i);
    }
    assert forall|i: int| 0 <= i < sel_b.len() implies all(#[trigger] sel_b[i]) && sel_b[i]
        < entries.len() && leads(SongOrder::Selection, entries, sel_b, i, all) by {
        lemma_selection_leads(entries, target, sel_b, i);
    }
    lemma_same_leading_order(SongOrder::Selection, entries, sel_a, sel_b, all, sel_a.len() as int);
    assert(sel_a.take(sel_a.len() as int) =~= sel_a);
    assert(sel_b.take(sel_b.len() as int) =~= sel_b);
    assert(sel_a == sel_b);
    let chosen = |j: usize| sel_a.contains(j);
    assert forall|i: int| 0 <= i < ranked_a.len() implies chosen(#[trigger] ranked_a[i])
        && ranked_a[i] < entries.len() && leads(SongOrder::Ranking, entries, ranked_a, i, chosen) by {
        lemma_ranking_leads(entries, sel_a, ranked_a, i);
        let k = choose|k: int| 0 <= k < sel_a.len() && sel_a[k] == ranked_a[i];
    }
    assert forall|i: int| 0 <= i < ranked_b.len() implies chosen(#[trigger] ranked_b[i])
        && ranked_b[i] < entries.len() && leads(SongOrder::Ranking, entries, ranked_b, i, chosen) by {
        lemma_ranking_leads(entries, sel_b, ranked_b, i);
        let k = choose|k: int| 0 <= k < sel_b.len() && sel_b[k] == ranked_b[i];
    }
    lemma_same_leading_order(
        SongOrder::Ranking,
        entries,
        ranked_a,
        ranked_b,
        chosen,
        ranked_a.len() as int,
    );
    assert(ranked_a.take(ranked_a.len() as int) =~= ranked_a);
    assert(ranked_b.take(ranked_b.len() as int) =~= ranked_b);
    assert(a =~= b);
}

} // verus!
