//! Per-song statistics and the map from song names to them.
use vstd::prelude::*;

verus! {

/// The mean of `count` song positions whose sum is `total`: the value `total / count`.
#[derive(Clone, Copy, PartialEq, Eq, Structural, Debug)]
pub struct MeanPosition {
    pub total: u64,
    pub count: u64,
}

/// How often and where a song was played.
#[derive(Clone, Debug)]
pub struct SongStats {
    pub song_name: String,
    pub total_plays: u32,
    pub opener_count: u32,
    pub closer_count: u32,
    pub encore_count: u32,
    pub positions_played: Vec<usize>,
    pub mean_positions_played: Vec<MeanPosition>,
    pub last_played: String,
}

/// The mathematical content of a [`SongStats`].
pub struct SongStatsModel {
    pub song_name: Seq<char>,
    pub total_plays: nat,
    pub opener_count: nat,
    pub closer_count: nat,
    pub encore_count: nat,
    pub positions_played: Seq<usize>,
    pub mean_positions_played: Seq<MeanPosition>,
    pub last_played: Seq<char>,
}

impl View for SongStats {
    type V = SongStatsModel;

    open spec fn view(&self) -> SongStatsModel {
        SongStatsModel {
            song_name: self.song_name@,
            total_plays: self.total_plays as nat,
            opener_count: self.opener_count as nat,
            closer_count: self.closer_count as nat,
            encore_count: self.encore_count as nat,
            positions_played: self.positions_played@,
            mean_positions_played: self.mean_positions_played@,
            last_played: self.last_played@,
        }
    }
}

impl SongStats {
    /// Statistics of a song that has not been played yet.
    pub fn unplayed(song_name: String) -> (s: SongStats)
        ensures
            s@ == unplayed_model(song_name@),
    {
        let s = SongStats {
            song_name,
            total_plays: 0,
            opener_count: 0,
            closer_count: 0,
            encore_count: 0,
            positions_played: Vec::new(),
            mean_positions_played: Vec::new(),
            last_played: String::new(),
        };
        assert(s@.positions_played =~= Seq::<usize>::empty());
        assert(s@.mean_positions_played =~= Seq::<MeanPosition>::empty());
        s
    }
}

pub open spec fn unplayed_model(name: Seq<char>) -> SongStatsModel {
    SongStatsModel {
        song_name: name,
        total_plays: 0,
        opener_count: 0,
        closer_count: 0,
        encore_count: 0,
        positions_played: Seq::empty(),
        mean_positions_played: Seq::empty(),
        last_played: Seq::empty(),
    }
}

/// The map that a sequence of (name, statistics) entries stands for.
pub open spec fn entries_map(s: Seq<(String, SongStats)>) -> Map<Seq<char>, SongStatsModel>
    decreases s.len(),
{
    if s.len() == 0 {
        Map::empty()
    } else {
        entries_map(s.drop_last()).insert(s.last().0@, s.last().1@)
    }
}

/// The counters of every entry fit `u32`, as the fields they come from do.
pub proof fn lemma_entries_map_counters(s: Seq<(String, SongStats)>)
    ensures
        forall|k: Seq<char>|
            #[trigger] entries_map(s).contains_key(k) ==> {
                let st = entries_map(s)[k];
                &&& st.total_plays <= u32::MAX
                &&& st.opener_count <= u32::MAX
                &&& st.closer_count <= u32::MAX
                &&& st.encore_count <= u32::MAX
            },
    decreases s.len(),
{
    if s.len() > 0 {
        lemma_entries_map_counters(s.drop_last());
        let last = s.last().1;
        assert(last@.total_plays == last.total_plays as nat);
        assert forall|k: Seq<char>| #[trigger] entries_map(s).contains_key(k) implies {
            let st = entries_map(s)[k];
            &&& st.total_plays <= u32::MAX
            &&& st.opener_count <= u32::MAX
            &&& st.closer_count <= u32::MAX
            &&& st.encore_count <= u32::MAX
        } by {
            if k != s.last().0@ {
                assert(entries_map(s.drop_last()).contains_key(k));
            }
        }
    }
}

pub open spec fn distinct_keys(s: Seq<(String, SongStats)>) -> bool {
    forall|i: int, j: int| 0 <= i < j < s.len() ==> s[i].0@ != s[j].0@
}

/// Song statistics by song name; each name occurs once.
pub struct SongStatsMap {
    entries: Vec<(String, SongStats)>,
}

impl View for SongStatsMap {
    type V = Map<Seq<char>, SongStatsModel>;

    closed spec fn view(&self) -> Map<Seq<char>, SongStatsModel> {
        entries_map(self.entries@)
    }
}

pub proof fn lemma_entries_map_domain(s: Seq<(String, SongStats)>)
    requires
        distinct_keys(s),
    ensures
        forall|k: Seq<char>|
            #[trigger] entries_map(s).contains_key(k) <==> exists|i: int|
                0 <= i < s.len() && s[i].0@ == k,
        forall|i: int| 0 <= i < s.len() ==> #[trigger] entries_map(s)[s[i].0@] == s[i].1@,
        entries_map(s).dom().finite(),
        entries_map(s).len() == s.len(),
    decreases s.len(),
{
    if s.len() > 0 {
        let p = s.drop_last();
        assert(distinct_keys(p));
        lemma_entries_map_domain(p);
        assert forall|k: Seq<char>|
            #[trigger] entries_map(s).contains_key(k) <==> exists|i: int|
                0 <= i < s.len() && s[i].0@ == k by {
            if entries_map(s).contains_key(k) && k != s.last().0@ {
                let i = choose|i: int| 0 <= i < p.len() && p[i].0@ == k;
                assert(s[i].0@ == k);
            }
            if exists|i: int| 0 <= i < s.len() && s[i].0@ == k {
                let i = choose|i: int| 0 <= i < s.len() && s[i].0@ == k;
                if i < p.len() {
                    assert(p[i].0@ == k);
                }
            }
        }
        assert forall|i: int| 0 <= i < s.len() implies #[trigger] entries_map(s)[s[i].0@]
            == s[i].1@ by {
            if i < p.len() {
                assert(p[i] == s[i]);
            }
        }
        assert(!entries_map(p).contains_key(s.last().0@)) by {
            if entries_map(p).contains_key(s.last().0@) {
                let i = choose|i: int| 0 <= i < p.len() && p[i].0@ == s.last().0@;
                assert(s[i].0@ == s[s.len() - 1].0@);
            }
        }
    }
}

proof fn lemma_entries_map_update(s: Seq<(String, SongStats)>, i: int, e: (String, SongStats))
    requires
        distinct_keys(s),
        0 <= i < s.len(),
        e.0@ == s[i].0@,
    ensures
        entries_map(s.update(i, e)) == entries_map(s).insert(e.0@, e.1@),
    decreases s.len(),
{
    let t = s.update(i, e);
    if i == s.len() - 1 {
        assert(t.drop_last() =~= s.drop_last());
        assert(entries_map(t) =~= entries_map(s).insert(e.0@, e.1@));
    } else {
        let p = s.drop_last();
        assert(distinct_keys(p));
        assert(t.drop_last() =~= p.update(i, e));
        lemma_entries_map_update(p, i, e);
        assert(s.last().0@ != e.0@);
        assert(entries_map(t) =~= entries_map(s).insert(e.0@, e.1@));
    }
}

impl SongStatsMap {
    #[verifier::type_invariant]
    closed spec fn keys_are_distinct(&self) -> bool {
        distinct_keys(self.entries@)
    }

    /// The entries in the order in which their names were first inserted.
    pub closed spec fn entries_seq(&self) -> Seq<(String, SongStats)> {
        self.entries@
    }

    proof fn lemma_entries(&self)
        requires
            distinct_keys(self.entries@),
        ensures
            self@ == entries_map(self.entries_seq()),
            forall|k: Seq<char>|
                #[trigger] self@.contains_key(k) <==> exists|i: int|
                    0 <= i < self.entries_seq().len() && self.entries_seq()[i].0@ == k,
            forall|i: int|
                0 <= i < self.entries_seq().len() ==> #[trigger] self@[self.entries_seq()[i].0@]
                    == self.entries_seq()[i].1@,
            self@.dom().finite(),
            self@.len() == self.entries_seq().len(),
    {
        lemma_entries_map_domain(self.entries@);
    }

    /// The counters of every song fit `u32`.
    pub proof fn lemma_counters_fit(&self)
        ensures
            forall|k: Seq<char>|
                #[trigger] self@.contains_key(k) ==> {
                    let st = self@[k];
                    &&& st.total_plays <= u32::MAX
                    &&& st.opener_count <= u32::MAX
                    &&& st.closer_count <= u32::MAX
                    &&& st.encore_count <= u32::MAX
                },
    {
        lemma_entries_map_counters(self.entries@);
    }

    /// An empty map.
    pub fn new() -> (m: SongStatsMap)
        ensures
            m@ == Map::<Seq<char>, SongStatsModel>::empty(),
            m.entries_seq().len() == 0,
    {
        SongStatsMap { entries: Vec::new() }
    }

    /// The number of songs.
    pub fn len(&self) -> (n: usize)
        ensures
            n == self@.len(),
            n == self.entries_seq().len(),
    {
        proof {
            use_type_invariant(self);
            self.lemma_entries();
        }
        self.entries.len()
    }

    /// The entries, in the order in which their names were first inserted.
    pub fn entries(&self) -> (e: &Vec<(String, SongStats)>)
        ensures
            e@ == self.entries_seq(),
            distinct_keys(e@),
            self@ == entries_map(e@),
            forall|k: Seq<char>|
                #[trigger] self@.contains_key(k) <==> exists|i: int|
                    0 <= i < e@.len() && e@[i].0@ == k,
            forall|i: int| 0 <= i < e@.len() ==> #[trigger] self@[e@[i].0@] == e@[i].1@,
            self@.dom().finite(),
            self@.len() == e@.len(),
    {
        proof {
            use_type_invariant(self);
            self.lemma_entries();
        }
        &self.entries
    }

    /// Where the entry with this name stands, if there is one.
    pub fn position_of(&self, name: &String) -> (r: Option<usize>)
        ensures
            match r {
                Some(i) => i < self.entries_seq().len() && self.entries_seq()[i as int].0@ == name@,
                None => !self@.contains_key(name@),
            },
    {
        proof {
            use_type_invariant(self);
            self.lemma_entries();
        }
        let mut i: usize = 0;
        while i < self.entries.len()
            invariant
                i <= self.entries@.len(),
                forall|j: int| 0 <= j < i ==> self.entries@[j].0@ != name@,
            decreases self.entries@.len() - i,
        {
            if self.entries[i].0 == *name {
                return Some(i);
            }
            i += 1;
        }
        None
    }

    /// The statistics recorded under this name.
    pub fn get(&self, name: &str) -> (r: Option<&SongStats>)
        ensures
            match r {
                Some(s) => self@.contains_key(name@) && self@[name@] == s@,
                None => !self@.contains_key(name@),
            },
    {
        proof {
            use_type_invariant(self);
            self.lemma_entries();
        }
        let key = String::from_str(name);
        match self.position_of(&key) {
            Some(i) => Some(&self.entries[i].1),
            None => None,
        }
    }

    /// Whether statistics are recorded under this name.
    pub fn contains_key(&self, name: &str) -> (b: bool)
        ensures
            b == self@.contains_key(name@),
    {
        proof {
            use_type_invariant(self);
            self.lemma_entries();
        }
        let key = String::from_str(name);
        self.position_of(&key).is_some()
    }

    /// Records `stats` under `name`; gives back what was recorded there before.
    pub fn insert(&mut self, name: String, stats: SongStats) -> (old_stats: Option<SongStats>)
        ensures
            final(self)@ == old(self)@.insert(name@, stats@),
            match old_stats {
                Some(o) => old(self)@.contains_key(name@) && old(self)@[name@] == o@,
                None => !old(self)@.contains_key(name@),
            },
    {
        proof {
            use_type_invariant(&*self);
            self.lemma_entries();
        }
        match self.position_of(&name) {
            Some(i) => {
                let ghost before = self.entries@;
                let mut replaced = stats;
                let mut entries: Vec<(String, SongStats)> = Vec::new();
                std::mem::swap(&mut entries, &mut self.entries);
                std::mem::swap(&mut entries[i].1, &mut replaced);
                proof {
                    assert(entries@ =~= before.update(i as int, (before[i as int].0, stats)));
                    lemma_entries_map_update(before, i as int, (before[i as int].0, stats));
                    assert(distinct_keys(entries@));
                }
                self.entries = entries;
                Some(replaced)
            },
            None => {
                proof {
                    assert forall|j: int| 0 <= j < self.entries@.len() implies self.entries@[j].0@
                        != name@ by {
                        if self.entries@[j].0@ == name@ {
                            assert(self@.contains_key(name@));
                        }
                    }
                }
                let mut entries: Vec<(String, SongStats)> = Vec::new();
                std::mem::swap(&mut entries, &mut self.entries);
                entries.push((name, stats));
                self.entries = entries;
                proof {
                    assert(self.entries@.drop_last() =~= old(self).entries@);
                }
                None
            },
        }
    }
}

} // verus!
