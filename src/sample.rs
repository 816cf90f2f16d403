//! Orientation samples and the per-player store that annotates each one with
//! its change from the player's previous sample.
use crate::angle::{pitch_delta, yaw_delta, yaw_delta_of};
use vstd::prelude::*;

verus! {

/// A world position, each coordinate in hundredths of a unit.
#[derive(Clone, Copy, Debug, PartialEq, Eq, Structural)]
pub struct Position {
    pub x: i32,
    pub y: i32,
    pub z: i32,
}

/// One player's orientation at one tick; angles in hundredths of a degree.
#[derive(Clone, Copy, Debug, PartialEq, Eq, Structural)]
pub struct AngleSample {
    pub tick: u32,
    pub pitch: i32,
    pub yaw: i32,
    pub roll: i32,
    pub position: Option<Position>,
}

/// Change of orientation from a player's previous sample.
#[derive(Clone, Copy, Debug, PartialEq, Eq, Structural)]
pub struct AngleDelta {
    /// Shortest signed yaw displacement, in `(-18000, 18000]`.
    pub yaw: i32,
    /// Plain pitch difference.
    pub pitch: i64,
}

/// A stored sample with its annotation; `delta` is `None` for a player's
/// first sample.
#[derive(Clone, Copy, Debug, PartialEq, Eq, Structural)]
pub struct Entry {
    pub sample: AngleSample,
    pub delta: Option<AngleDelta>,
}

/// The change from `prev` to `cur`.
pub open spec fn delta_between(prev: AngleSample, cur: AngleSample) -> AngleDelta {
    AngleDelta {
        yaw: yaw_delta_of(cur.yaw as int, prev.yaw as int) as i32,
        pitch: (cur.pitch - prev.pitch) as i64,
    }
}

/// A pitch change within the range of a difference of two pitches.
pub open spec fn delta_in_range(d: AngleDelta) -> bool {
    -0xFFFF_FFFF <= d.pitch <= 0xFFFF_FFFF
}

/// Computes the change from `prev` to `cur`.
pub fn angle_delta(prev: &AngleSample, cur: &AngleSample) -> (r: AngleDelta)
    ensures
        r == delta_between(*prev, *cur),
{
    AngleDelta { yaw: yaw_delta(cur.yaw, prev.yaw), pitch: pitch_delta(cur.pitch, prev.pitch) }
}

/// The annotation that a sample appended after `entries` receives.
pub open spec fn next_delta(entries: Seq<Entry>, sample: AngleSample) -> Option<AngleDelta> {
    if entries.len() == 0 {
        None
    } else {
        Some(delta_between(entries.last().sample, sample))
    }
}

/// Every entry carries the change from the entry before it.
pub open spec fn entries_wf(entries: Seq<Entry>) -> bool {
    forall|k: int|
        0 <= k < entries.len() ==> #[trigger] entries[k].delta == next_delta(
            entries.take(k),
            entries[k].sample,
        )
}

/// The samples of one player, in insertion order.
pub struct PlayerSeries {
    pub player: u64,
    /// Display name; empty while unknown.
    pub name: String,
    pub entries: Vec<Entry>,
}

/// The mathematical content of a [`PlayerSeries`].
pub struct SeriesView {
    pub player: u64,
    pub name: Seq<char>,
    pub entries: Seq<Entry>,
}

impl View for PlayerSeries {
    type V = SeriesView;

    open spec fn view(&self) -> SeriesView {
        SeriesView { player: self.player, name: self.name@, entries: self.entries@ }
    }
}

/// Index of the last series of `player` in `s`, or -1.
pub open spec fn position_of(s: Seq<SeriesView>, player: u64) -> int
    decreases s.len(),
{
    if s.len() == 0 {
        -1
    } else if s.last().player == player {
        s.len() - 1
    } else {
        position_of(s.drop_last(), player)
    }
}

/// `s` after appending `sample` for `player`.
pub open spec fn appended(s: Seq<SeriesView>, player: u64, sample: AngleSample) -> Seq<SeriesView> {
    let i = position_of(s, player);
    if i < 0 {
        s.push(SeriesView { player, name: Seq::empty(), entries: seq![Entry { sample, delta: None }] })
    } else {
        s.update(
            i,
            SeriesView {
                player,
                name: s[i].name,
                entries: s[i].entries.push(
                    Entry { sample, delta: next_delta(s[i].entries, sample) },
                ),
            },
        )
    }
}

/// `s` after naming `player`.
pub open spec fn renamed(s: Seq<SeriesView>, player: u64, name: Seq<char>) -> Seq<SeriesView> {
    let i = position_of(s, player);
    if i < 0 {
        s.push(SeriesView { player, name, entries: Seq::empty() })
    } else {
        s.update(i, SeriesView { player, name, entries: s[i].entries })
    }
}

/// The samples stored for `player`, empty if none.
pub open spec fn entries_of(s: Seq<SeriesView>, player: u64) -> Seq<Entry> {
    let i = position_of(s, player);
    if i < 0 {
        Seq::empty()
    } else {
        s[i].entries
    }
}

/// Every annotation of `s` lies in the range of a change between two samples.
pub open spec fn deltas_in_range(s: Seq<Entry>) -> bool {
    forall|k: int| 0 <= k < s.len() ==> (#[trigger] s[k].delta matches Some(d) ==> delta_in_range(d))
}

/// Correct annotations lie in range.
pub proof fn lemma_wf_in_range(s: Seq<Entry>)
    requires
        entries_wf(s),
    ensures
        deltas_in_range(s),
{
    assert forall|k: int| 0 <= k < s.len() implies (#[trigger] s[k].delta matches Some(d) ==> delta_in_range(d)) by {
        assert(s[k].delta == next_delta(s.take(k), s[k].sample));
    }
}

/// Players are distinct and each series is annotated correctly.
pub open spec fn store_wf(s: Seq<SeriesView>) -> bool {
    &&& forall|i: int, j: int| 0 <= i < j < s.len() ==> s[i].player != s[j].player
    &&& forall|i: int| 0 <= i < s.len() ==> entries_wf(#[trigger] s[i].entries)
}

proof fn lemma_position_of(s: Seq<SeriesView>, player: u64)
    ensures
        -1 <= position_of(s, player) < s.len(),
        position_of(s, player) >= 0 ==> s[position_of(s, player)].player == player,
        position_of(s, player) < 0 ==> forall|i: int| 0 <= i < s.len() ==> s[i].player != player,
    decreases s.len(),
{
    if s.len() > 0 && s.last().player != player {
        lemma_position_of(s.drop_last(), player);
        if position_of(s, player) < 0 {
            assert forall|i: int| 0 <= i < s.len() implies s[i].player != player by {
                if i < s.len() - 1 {
                    assert(s[i] == s.drop_last()[i]);
                }
            }
        }
    }
}

proof fn lemma_entries_push(entries: Seq<Entry>, sample: AngleSample)
    requires
        entries_wf(entries),
    ensures
        entries_wf(entries.push(Entry { sample, delta: next_delta(entries, sample) })),
{
    let e = entries.push(Entry { sample, delta: next_delta(entries, sample) });
    assert forall|k: int| 0 <= k < e.len() implies #[trigger] e[k].delta == next_delta(
        e.take(k),
        e[k].sample,
    ) by {
        if k < entries.len() {
            assert(e.take(k) =~= entries.take(k));
        } else {
            assert(e.take(k) =~= entries);
        }
    }
}

proof fn lemma_position_update(s: Seq<SeriesView>, i: int, x: SeriesView, q: u64)
    requires
        0 <= i < s.len(),
        x.player == s[i].player,
    ensures
        position_of(s.update(i, x), q) == position_of(s, q),
    decreases s.len(),
{
    let u = s.update(i, x);
    if i < s.len() - 1 {
        assert(u.drop_last() =~= s.drop_last().update(i, x));
        lemma_position_update(s.drop_last(), i, x, q);
    } else {
        assert(u.drop_last() =~= s.drop_last());
    }
}

/// Appending never touches what is stored: every player's earlier entries,
/// with their annotations, stay as they were, and only the appending
/// player's series grows, by one entry.
pub proof fn lemma_append_keeps_history(s: Seq<SeriesView>, player: u64, sample: AngleSample, q: u64)
    ensures
        entries_of(appended(s, player, sample), q).len() == entries_of(s, q).len() + if q == player {
            1int
        } else {
            0int
        },
        entries_of(appended(s, player, sample), q).take(entries_of(s, q).len() as int) == entries_of(
            s,
            q,
        ),
{
    lemma_position_of(s, player);
    lemma_position_of(s, q);
    let i = position_of(s, player);
    let a = appended(s, player, sample);
    if i < 0 {
        let x = SeriesView { player, name: Seq::empty(), entries: seq![Entry { sample, delta: None }] };
        assert(a.drop_last() =~= s);
        if q == player {
            assert(entries_of(a, q) == x.entries);
            assert(x.entries.take(0) =~= Seq::<Entry>::empty());
        }
    } else {
        let x = a[i];
        assert(a == s.update(i, x));
        lemma_position_update(s, i, x, q);
        if q == player {
            assert(x.entries.take(s[i].entries.len() as int) =~= s[i].entries);
        } else {
            assert(entries_of(a, q).take(entries_of(s, q).len() as int) =~= entries_of(s, q));
        }
    }
}

/// The appending player's series gains exactly the new entry.
pub proof fn lemma_appended_entries(s: Seq<SeriesView>, player: u64, sample: AngleSample)
    ensures
        entries_of(appended(s, player, sample), player) == entries_of(s, player).push(
            Entry { sample, delta: next_delta(entries_of(s, player), sample) },
        ),
{
    lemma_position_of(s, player);
    let i = position_of(s, player);
    let a = appended(s, player, sample);
    if i < 0 {
        assert(a.drop_last() =~= s);
        assert(seq![Entry { sample, delta: None }] =~= Seq::<Entry>::empty().push(
            Entry { sample, delta: None },
        ));
    } else {
        lemma_position_update(s, i, a[i], player);
        assert(a == s.update(i, a[i]));
    }
}

/// Ordered per-player sample history.
pub struct SampleStore {
    series: Vec<PlayerSeries>,
}

impl View for SampleStore {
    type V = Seq<SeriesView>;

    closed spec fn view(&self) -> Seq<SeriesView> {
        self.series@.map_values(|p: PlayerSeries| p@)
    }
}

impl SampleStore {
    pub open spec fn wf(&self) -> bool {
        store_wf(self@)
    }

    /// An empty store.
    pub fn new() -> (r: SampleStore)
        ensures
            r@ == Seq::<SeriesView>::empty(),
            r.wf(),
    {
        SampleStore { series: Vec::new() }
    }

    /// Index of the series of `player`, if any.
    fn find(&self, player: u64) -> (r: Option<usize>)
        ensures
            match r {
                Some(i) => i == position_of(self@, player) && i < self.series.len(),
                None => position_of(self@, player) < 0,
            },
    {
        let mut k: usize = self.series.len();
        proof {
            lemma_position_of(self@, player);
            assert(self@.take(k as int) =~= self@);
        }
        while k > 0
            invariant
                k <= self.series.len(),
                position_of(self@, player) == position_of(self@.take(k as int), player),
            decreases k,
        {
            assert(self@.take(k as int).last() == self.series[k - 1]@);
            if self.series[k - 1].player == player {
                return Some(k - 1);
            }
            assert(self@.take(k as int).drop_last() =~= self@.take(k - 1));
            k = k - 1;
        }
        None
    }

    /// Records `sample` for `player`, annotated with its change from the
    /// player's previous sample.
    pub fn append(&mut self, player: u64, sample: AngleSample)
        requires
            old(self).wf(),
        ensures
            final(self).wf(),
            final(self)@ == appended(old(self)@, player, sample),
    {
        proof {
            assert(self@.take(self@.len() as int) =~= self@);
            lemma_position_of(self@, player);
        }
        match self.find(player) {
            Some(i) => {
                let n = self.series[i].entries.len();
                let delta = if n == 0 {
                    None
                } else {
                    Some(angle_delta(&self.series[i].entries[n - 1].sample, &sample))
                };
                proof {
                    lemma_entries_push(self@[i as int].entries, sample);
                }
                self.series[i].entries.push(Entry { sample, delta });
                assert(self@ =~= appended(old(self)@, player, sample));
            },
            None => {
                let mut entries: Vec<Entry> = Vec::new();
                entries.push(Entry { sample, delta: None });
                self.series.push(PlayerSeries { player, name: String::new(), entries });
                assert(self@ =~= appended(old(self)@, player, sample));
                assert(entries_wf(self@.last().entries));
            },
        }
    }

    /// Sets the display name of `player`.
    pub fn set_name(&mut self, player: u64, name: String)
        requires
            old(self).wf(),
        ensures
            final(self).wf(),
            final(self)@ == renamed(old(self)@, player, name@),
    {
        proof {
            assert(self@.take(self@.len() as int) =~= self@);
            lemma_position_of(self@, player);
        }
        match self.find(player) {
            Some(i) => {
                self.series[i].name = name;
                assert(self@ =~= renamed(old(self)@, player, name@));
            },
            None => {
                self.series.push(PlayerSeries { player, name, entries: Vec::new() });
                assert(self@ =~= renamed(old(self)@, player, name@));
            },
        }
    }

    /// The stored samples of `player`, in insertion order.
    pub fn series_for(&self, player: u64) -> (r: &[Entry])
        ensures
            r@ == entries_of(self@, player),
    {
        match self.find(player) {
            Some(i) => self.series[i].entries.as_slice(),
            None => &[],
        }
    }

    /// All series, in order of each player's first appearance.
    pub fn series(&self) -> (r: &Vec<PlayerSeries>)
        ensures
            r@.map_values(|p: PlayerSeries| p@) == self@,
    {
        &self.series
    }
}

} // verus!

verus! {

/// Samples arrived out of tick order.
#[derive(Clone, Copy, Debug, PartialEq, Eq, Structural)]
pub enum SequenceError {
    /// A player's sample has a tick smaller than an earlier one.
    OutOfOrder { player: u64, tick: u32, previous: u32 },
    /// A session's tick went back below the current one.
    TickBefore { tick: u32, current: u32 },
}

/// Ticks never decrease along `s`.
pub open spec fn ticks_sorted(s: Seq<Entry>) -> bool {
    forall|i: int, j: int| 0 <= i < j < s.len() ==> s[i].sample.tick <= s[j].sample.tick
}

/// `k` is the first index whose tick is smaller than its predecessor's.
pub open spec fn first_descent(s: Seq<Entry>, k: int) -> bool {
    &&& 0 < k < s.len()
    &&& s[k].sample.tick < s[k - 1].sample.tick
    &&& ticks_sorted(s.take(k))
}

/// Checks that the ticks of `player`'s entries never decrease.
pub fn check_order(player: u64, entries: &[Entry]) -> (r: Result<(), SequenceError>)
    ensures
        r is Ok <==> ticks_sorted(entries@),
        match r {
            Err(SequenceError::OutOfOrder { player: p, tick, previous }) => exists|k: int|
                #[trigger] first_descent(entries@, k) && p == player && tick == entries@[k].sample.tick
                    && previous == entries@[k - 1].sample.tick,
            Err(SequenceError::TickBefore { .. }) => false,
            Ok(()) => true,
        },
{
    let mut k: usize = 1;
    if entries.len() == 0 {
        return Ok(());
    }
    while k < entries.len()
        invariant
            1 <= k <= entries@.len(),
            forall|a: int, b: int|
                0 <= a < b < k ==> #[trigger] entries@[a].sample.tick <= #[trigger] entries@[b].sample.tick,
        decreases entries.len() - k,
    {
        if entries[k].sample.tick < entries[k - 1].sample.tick {
            assert(ticks_sorted(entries@.take(k as int)));
            assert(first_descent(entries@, k as int));
            assert(!ticks_sorted(entries@)) by {
                assert(entries@[k - 1].sample.tick > entries@[k as int].sample.tick);
            }
            return Err(
                SequenceError::OutOfOrder {
                    player,
                    tick: entries[k].sample.tick,
                    previous: entries[k - 1].sample.tick,
                },
            );
        }
        assert forall|a: int, b: int| 0 <= a < b < k + 1 implies #[trigger] entries@[a].sample.tick <= #[trigger] entries@[b].sample.tick by {
            if b == k && a < k - 1 {
                assert(entries@[a].sample.tick <= entries@[k - 1].sample.tick);
            }
        }
        k = k + 1;
    }
    Ok(())
}

} // verus!
