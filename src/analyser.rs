//! Streaming analysis: an ordered list of detectors fed the players' state
//! tick by tick, whose detections are collected in emission order.
use crate::detection::{sort_by_tick, sort_detections, Detection};
use crate::flick::{check_sample, flick_findings, FlickConfig};
use crate::oob::{
    machine_of, observed, opt_seq, out_of_order, periods_detections, reported, step,
    finish_detections, finished_track, tracks_wf, OobConfig, OobDetector, PlayerPeriods,
    TrackView,
};
use crate::psilent::{return_hits, scan_returns, DEFAULT_RETURN_THRESHOLD};
use crate::sample::{
    angle_delta, appended, entries_of, next_delta, renamed, store_wf, AngleSample, PlayerSeries,
    Position, SampleStore, SequenceError, SeriesView,
};
use vstd::prelude::*;

verus! {

/// A view angle triple, in hundredths of a degree.
#[derive(Clone, Copy, Debug, PartialEq, Eq, Structural)]
pub struct Angles {
    pub pitch: i32,
    pub yaw: i32,
    pub roll: i32,
}

/// What is known of one player at one tick.
pub struct PlayerState {
    pub steamid: u64,
    pub viewangles: Option<Angles>,
    pub position: Option<Position>,
    /// Display name; empty while unknown.
    pub name: String,
}

/// The mathematical content of a [`PlayerState`].
pub struct PlayerView {
    pub steamid: u64,
    pub viewangles: Option<Angles>,
    pub position: Option<Position>,
    pub name: Seq<char>,
}

impl View for PlayerState {
    type V = PlayerView;

    open spec fn view(&self) -> PlayerView {
        PlayerView {
            steamid: self.steamid,
            viewangles: self.viewangles,
            position: self.position,
            name: self.name@,
        }
    }
}

/// The players' state at one tick, in a fixed order.
pub struct CheatAnalyserState {
    pub tick: u32,
    pub player_states: Vec<PlayerState>,
}

/// The players of a state, as views.
pub open spec fn players_view(v: Seq<PlayerState>) -> Seq<PlayerView> {
    v.map_values(|p: PlayerState| p@)
}

/// The sample that a player's angles make at `tick`.
pub open spec fn sample_at(p: PlayerView, a: Angles, tick: u32) -> AngleSample {
    AngleSample { tick, pitch: a.pitch, yaw: a.yaw, roll: a.roll, position: p.position }
}

/// `store` after taking note of the player's name, when it is known.
pub open spec fn with_name(store: Seq<SeriesView>, p: PlayerView) -> Seq<SeriesView> {
    if p.name.len() > 0 {
        renamed(store, p.steamid, p.name)
    } else {
        store
    }
}

/// The mathematical content of a detector.
pub enum AlgorithmView {
    ViewAngles { config: FlickConfig, store: Seq<SeriesView> },
    ReturnToOrigin { threshold: u32, store: Seq<SeriesView> },
    OobPitch { limits: OobConfig, tracks: Seq<TrackView> },
}

/// A detector after one player's state at `tick`, and what it reports.
pub open spec fn feed_player(a: AlgorithmView, p: PlayerView, tick: u32) -> (AlgorithmView, Seq<Detection>) {
    match a {
        AlgorithmView::ViewAngles { config, store } => {
            let named = with_name(store, p);
            match p.viewangles {
                None => (AlgorithmView::ViewAngles { config, store: named }, Seq::empty()),
                Some(an) => {
                    let s = sample_at(p, an, tick);
                    (
                        AlgorithmView::ViewAngles { config, store: appended(named, p.steamid, s) },
                        flick_findings(
                            config,
                            p.steamid,
                            s,
                            next_delta(entries_of(named, p.steamid), s),
                        ),
                    )
                },
            }
        },
        AlgorithmView::ReturnToOrigin { threshold, store } => {
            let named = with_name(store, p);
            match p.viewangles {
                None => (AlgorithmView::ReturnToOrigin { threshold, store: named }, Seq::empty()),
                Some(an) => (
                    AlgorithmView::ReturnToOrigin {
                        threshold,
                        store: appended(named, p.steamid, sample_at(p, an, tick)),
                    },
                    Seq::empty(),
                ),
            }
        },
        AlgorithmView::OobPitch { limits: config, tracks } => match p.viewangles {
            None => (AlgorithmView::OobPitch { limits: config, tracks }, Seq::empty()),
            Some(an) => (
                AlgorithmView::OobPitch {
                    limits: config,
                    tracks: observed(config, tracks, p.steamid, tick, an.pitch),
                },
                periods_detections(
                    p.steamid,
                    opt_seq(step(config, machine_of(tracks, p.steamid), tick, an.pitch).1),
                ),
            ),
        },
    }
}

/// A detector after every player's state at `tick`, in order, and what it
/// reports.
pub open spec fn feed_players(a: AlgorithmView, ps: Seq<PlayerView>, tick: u32) -> (AlgorithmView, Seq<Detection>)
    decreases ps.len(),
{
    if ps.len() == 0 {
        (a, Seq::empty())
    } else {
        let (a1, d1) = feed_players(a, ps.drop_last(), tick);
        let (a2, d2) = feed_player(a1, ps.last(), tick);
        (a2, d1 + d2)
    }
}

/// Every return-to-origin detection of a store, series by series.
pub open spec fn store_returns(threshold: u32, s: Seq<SeriesView>) -> Seq<Detection>
    decreases s.len(),
{
    if s.len() == 0 {
        Seq::empty()
    } else {
        store_returns(threshold, s.drop_last()) + return_hits(
            s.last().player,
            s.last().entries,
            threshold,
        )
    }
}

/// A detector after the end of the samples, what it reports, and the
/// periods of the players with sustained out-of-bounds pitch.
pub open spec fn finish_view(a: AlgorithmView) -> (AlgorithmView, Seq<Detection>, Seq<
    (u64, Seq<crate::oob::ViolationPeriod>),
>) {
    match a {
        AlgorithmView::ViewAngles { .. } => (a, Seq::empty(), Seq::empty()),
        AlgorithmView::ReturnToOrigin { threshold, store } => (
            a,
            sort_by_tick(store_returns(threshold, store)),
            Seq::empty(),
        ),
        AlgorithmView::OobPitch { limits: config, tracks } => {
            let done = tracks.map_values(|t: TrackView| finished_track(config, t));
            (
                AlgorithmView::OobPitch { limits: config, tracks: done },
                finish_detections(config, tracks),
                reported(done),
            )
        },
    }
}

/// No sample recorded by the sustained out-of-bounds tracks is later than
/// `tick`.
pub open spec fn tracks_at_most(tracks: Seq<TrackView>, tick: u32) -> bool {
    forall|i: int|
        0 <= i < tracks.len() ==> (#[trigger] tracks[i].machine.last_tick matches Some(l) ==> l
            <= tick)
}

/// The detector's state is well formed.
pub open spec fn algorithm_wf(a: AlgorithmView) -> bool {
    match a {
        AlgorithmView::ViewAngles { store, .. } => store_wf(store),
        AlgorithmView::ReturnToOrigin { store, .. } => store_wf(store),
        AlgorithmView::OobPitch { tracks, .. } => tracks_wf(tracks),
    }
}

/// The detector holds no sample whose order matters after `tick`.
pub open spec fn algorithm_at_most(a: AlgorithmView, tick: u32) -> bool {
    a matches AlgorithmView::OobPitch { tracks, .. } ==> tracks_at_most(tracks, tick)
}

/// Streaming angle-flick detector. It also keeps every sample, for export.
pub struct ViewAnglesAnalyzer {
    pub config: FlickConfig,
    pub store: SampleStore,
    /// Where the table of samples is to be written, if chosen.
    pub output_path: Option<String>,
}

impl ViewAnglesAnalyzer {
    /// A detector with the streaming defaults and no samples.
    pub fn new() -> (r: ViewAnglesAnalyzer)
        ensures
            r.config == (FlickConfig { yaw_threshold: 3000, pitch_threshold: 2000, max_pitch: 8980 }),
            r.store@ == Seq::<SeriesView>::empty(),
            r.store.wf(),
            r.output_path is None,
    {
        ViewAnglesAnalyzer {
            config: FlickConfig::streaming_defaults(),
            store: SampleStore::new(),
            output_path: None,
        }
    }

    /// Chooses where the table of samples is to be written.
    pub fn set_output_path(&mut self, path: String)
        ensures
            final(self).output_path == Some(path),
            final(self).config == old(self).config,
            final(self).store@ == old(self).store@,
    {
        self.output_path = Some(path);
    }
}

/// Streaming return-to-origin detector: it keeps every sample and scans
/// the series when the samples end.
pub struct ReturnToOriginAnalyzer {
    pub threshold: u32,
    pub store: SampleStore,
}

impl ReturnToOriginAnalyzer {
    /// A detector with the default threshold and no samples.
    pub fn new() -> (r: ReturnToOriginAnalyzer)
        ensures
            r.threshold == 100,
            r.store@ == Seq::<SeriesView>::empty(),
            r.store.wf(),
    {
        ReturnToOriginAnalyzer { threshold: DEFAULT_RETURN_THRESHOLD, store: SampleStore::new() }
    }
}

/// One of the detectors, as the orchestrator drives them.
pub enum CheatAlgorithm {
    ViewAngles(ViewAnglesAnalyzer),
    ReturnToOrigin(ReturnToOriginAnalyzer),
    OobPitch(OobDetector),
}

impl View for CheatAlgorithm {
    type V = AlgorithmView;

    open spec fn view(&self) -> AlgorithmView {
        match self {
            CheatAlgorithm::ViewAngles(a) => AlgorithmView::ViewAngles {
                config: a.config,
                store: a.store@,
            },
            CheatAlgorithm::ReturnToOrigin(a) => AlgorithmView::ReturnToOrigin {
                threshold: a.threshold,
                store: a.store@,
            },
            CheatAlgorithm::OobPitch(d) => AlgorithmView::OobPitch {
                limits: d.settings(),
                tracks: d@,
            },
        }
    }
}

/// Takes note of a player's name, when known, in a store.
fn note_name(store: &mut SampleStore, p: &PlayerState)
    requires
        old(store).wf(),
    ensures
        final(store).wf(),
        final(store)@ == with_name(old(store)@, p@),
{
    if p.name.as_str().unicode_len() > 0 {
        store.set_name(p.steamid, p.name.clone());
    }
}

proof fn lemma_observed_at_most(cfg: OobConfig, tracks: Seq<TrackView>, player: u64, tick: u32, pitch: i32)
    requires
        tracks_at_most(tracks, tick),
    ensures
        tracks_at_most(observed(cfg, tracks, player, tick, pitch), tick),
        !out_of_order(machine_of(tracks, player), tick),
{
    let bound = tick;
    crate::oob::lemma_track_position(tracks, player);
    let i = crate::oob::track_position(tracks, player);
    if i >= 0 {
        assert(tracks[i].machine.last_tick matches Some(l) ==> l <= bound);
    }
    let t = observed(cfg, tracks, player, tick, pitch);
    assert forall|k: int| 0 <= k < t.len() implies (#[trigger] t[k].machine.last_tick matches Some(l) ==> l <= bound) by {
        if k < tracks.len() && k != i {
            assert(t[k] == tracks[k]);
        }
    }
}

impl CheatAlgorithm {
    pub open spec fn wf(&self) -> bool {
        &&& algorithm_wf(self@)
        &&& self matches CheatAlgorithm::OobPitch(d) ==> d.wf()
    }

    /// The name under which the detector reports.
    pub fn algorithm_name(&self) -> (r: &'static str)
        ensures
            r@ == crate::detection::detector_name(match self@ {
                AlgorithmView::ViewAngles { .. } => crate::detection::DetectorKind::AngleFlick,
                AlgorithmView::ReturnToOrigin { .. } => crate::detection::DetectorKind::ReturnToOrigin,
                AlgorithmView::OobPitch { .. } => crate::detection::DetectorKind::SustainedOutOfBounds,
            }),
    {
        match self {
            CheatAlgorithm::ViewAngles(_) => crate::detection::DetectorKind::AngleFlick.name(),
            CheatAlgorithm::ReturnToOrigin(_) => crate::detection::DetectorKind::ReturnToOrigin.name(),
            CheatAlgorithm::OobPitch(_) => crate::detection::DetectorKind::SustainedOutOfBounds.name(),
        }
    }

    /// Feeds one player's state at `tick`.
    fn feed(&mut self, p: &PlayerState, tick: u32) -> (r: Vec<Detection>)
        requires
            old(self).wf(),
            algorithm_at_most(old(self)@, tick),
        ensures
            final(self).wf(),
            algorithm_at_most(final(self)@, tick),
            (final(self)@, r@) == feed_player(old(self)@, p@, tick),
    {
        match self {
            CheatAlgorithm::ViewAngles(a) => {
                note_name(&mut a.store, p);
                match p.viewangles {
                    None => Vec::new(),
                    Some(an) => {
                        let s = AngleSample {
                            tick,
                            pitch: an.pitch,
                            yaw: an.yaw,
                            roll: an.roll,
                            position: p.position,
                        };
                        let prev = a.store.series_for(p.steamid);
                        let delta = if prev.len() == 0 {
                            None
                        } else {
                            Some(angle_delta(&prev[prev.len() - 1].sample, &s))
                        };
                        assert(delta == next_delta(prev@, s));
                        let found = check_sample(&a.config, p.steamid, &s, delta);
                        a.store.append(p.steamid, s);
                        found
                    },
                }
            },
            CheatAlgorithm::ReturnToOrigin(a) => {
                note_name(&mut a.store, p);
                if let Some(an) = p.viewangles {
                    let s = AngleSample {
                        tick,
                        pitch: an.pitch,
                        yaw: an.yaw,
                        roll: an.roll,
                        position: p.position,
                    };
                    a.store.append(p.steamid, s);
                }
                Vec::new()
            },
            CheatAlgorithm::OobPitch(d) => {
                match p.viewangles {
                    None => Vec::new(),
                    Some(an) => {
                        proof {
                            lemma_observed_at_most(d.settings(), d@, p.steamid, tick, an.pitch);
                        }
                        // No track holds a sample after `tick`, so the
                        // sample is never out of order.
                        match d.observe(p.steamid, tick, an.pitch) {
                            Ok(found) => found,
                            Err(_) => Vec::new(),
                        }
                    },
                }
            },
        }
    }

    /// Feeds every player's state at one tick, in order.
    pub fn on_tick(&mut self, state: &CheatAnalyserState) -> (r: Vec<Detection>)
        requires
            old(self).wf(),
            algorithm_at_most(old(self)@, state.tick),
        ensures
            final(self).wf(),
            algorithm_at_most(final(self)@, state.tick),
            (final(self)@, r@) == feed_players(
                old(self)@,
                players_view(state.player_states@),
                state.tick,
            ),
    {
        let ghost ps = players_view(state.player_states@);
        let mut r: Vec<Detection> = Vec::new();
        let mut i: usize = 0;
        while i < state.player_states.len()
            invariant
                i <= state.player_states@.len() == ps.len(),
                ps == players_view(state.player_states@),
                self.wf(),
                algorithm_at_most(self@, state.tick),
                (self@, r@) == feed_players(old(self)@, ps.take(i as int), state.tick),
            decreases state.player_states.len() - i,
        {
            let found = self.feed(&state.player_states[i], state.tick);
            assert(ps.take(i + 1).drop_last() =~= ps.take(i as int));
            assert(ps.take(i + 1).last() == state.player_states@[i as int]@);
            let ghost before = r@;
            let mut j: usize = 0;
            while j < found.len()
                invariant
                    j <= found@.len(),
                    r@ == before + found@.take(j as int),
                decreases found.len() - j,
            {
                r.push(found[j]);
                assert(r@ =~= before + found@.take(j + 1));
                j = j + 1;
            }
            assert(found@.take(j as int) =~= found@);
            i = i + 1;
        }
        assert(ps.take(i as int) =~= ps);
        r
    }

    /// Ends the samples: what the detector reports then, and the periods of
    /// the players with sustained out-of-bounds pitch.
    pub fn finish(&mut self) -> (r: (Vec<Detection>, Vec<PlayerPeriods>))
        requires
            old(self).wf(),
        ensures
            final(self).wf(),
            forall|t: u32| algorithm_at_most(old(self)@, t) ==> algorithm_at_most(final(self)@, t),
            (final(self)@, r.0@, r.1@.map_values(|p: PlayerPeriods| (p.player, p.periods@)))
                == finish_view(old(self)@),
    {
        match self {
            CheatAlgorithm::ViewAngles(_) => {
                let r: (Vec<Detection>, Vec<PlayerPeriods>) = (Vec::new(), Vec::new());
                assert(r.1@.map_values(|p: PlayerPeriods| (p.player, p.periods@)) =~= Seq::empty());
                r
            },
            CheatAlgorithm::ReturnToOrigin(a) => {
                let series = a.store.series();
                let ghost v = a.store@;
                let mut all: Vec<Detection> = Vec::new();
                let mut i: usize = 0;
                while i < series.len()
                    invariant
                        i <= series@.len() == v.len(),
                        series@.map_values(|p: PlayerSeries| p@) == v,
                        all@ == store_returns(a.threshold, v.take(i as int)),
                    decreases series.len() - i,
                {
                    let p = &series[i];
                    assert(v[i as int] == p@);
                    let found = scan_returns(p.player, p.entries.as_slice(), a.threshold);
                    let ghost before = all@;
                    let mut j: usize = 0;
                    while j < found.len()
                        invariant
                            j <= found@.len(),
                            all@ == before + found@.take(j as int),
                        decreases found.len() - j,
                    {
                        all.push(found[j]);
                        assert(all@ =~= before + found@.take(j + 1));
                        j = j + 1;
                    }
                    assert(found@.take(j as int) =~= found@);
                    assert(v.take(i + 1).drop_last() =~= v.take(i as int));
                    i = i + 1;
                }
                assert(v.take(i as int) =~= v);
                let players: Vec<PlayerPeriods> = Vec::new();
                assert(players@.map_values(|p: PlayerPeriods| (p.player, p.periods@)) =~= Seq::empty());
                (sort_detections(all), players)
            },
            CheatAlgorithm::OobPitch(d) => {
                let report = d.finish();
                proof {
                    assert forall|t: u32| algorithm_at_most(old(self)@, t) implies algorithm_at_most(self@, t) by {
                        let o = old(self)@->tracks;
                        assert forall|i: int| 0 <= i < d@.len() implies (#[trigger] d@[i].machine.last_tick matches Some(l) ==> l <= t) by {
                            assert(d@[i] == finished_track(d.settings(), o[i]));
                            assert(o[i].machine.last_tick matches Some(l) ==> l <= t);
                        }
                    }
                }
                (report.detections, report.players)
            },
        }
    }
}

/// Every detector after the players' state at `tick`, and what they
/// report, detector by detector.
pub open spec fn tick_all(algs: Seq<AlgorithmView>, ps: Seq<PlayerView>, tick: u32) -> (Seq<AlgorithmView>, Seq<Detection>)
    decreases algs.len(),
{
    if algs.len() == 0 {
        (algs, Seq::empty())
    } else {
        let (a1, d1) = tick_all(algs.drop_last(), ps, tick);
        let (x, d) = feed_players(algs.last(), ps, tick);
        (a1.push(x), d1 + d)
    }
}

/// Every detector after the end of the samples, what they report, and the
/// periods of the players with sustained out-of-bounds pitch.
pub open spec fn finish_all(algs: Seq<AlgorithmView>) -> (Seq<AlgorithmView>, Seq<Detection>, Seq<
    (u64, Seq<crate::oob::ViolationPeriod>),
>)
    decreases algs.len(),
{
    if algs.len() == 0 {
        (algs, Seq::empty(), Seq::empty())
    } else {
        let (a1, d1, p1) = finish_all(algs.drop_last());
        let (x, d, p) = finish_view(algs.last());
        (a1.push(x), d1 + d, p1 + p)
    }
}

/// How a packet of a recorded session drives the analysis.
#[derive(Clone, Copy, Debug, PartialEq, Eq, Structural)]
pub enum PacketKind {
    /// A message packet; whether it holds any message.
    Message { has_messages: bool },
    /// A packet that advances the tick.
    Tick,
    /// Any other packet.
    Other,
}

/// The mathematical content of a [`CheatAnalyser`].
pub struct AnalyserView {
    pub algorithms: Seq<AlgorithmView>,
    pub detections: Seq<Detection>,
    pub tick_count: u32,
}

/// Drives an ordered list of detectors and collects their detections.
pub struct CheatAnalyser {
    algorithms: Vec<CheatAlgorithm>,
    state: CheatAnalyserState,
    detections: Vec<Detection>,
    tick_count: u32,
}

impl View for CheatAnalyser {
    type V = AnalyserView;

    closed spec fn view(&self) -> AnalyserView {
        AnalyserView {
            algorithms: self.algorithms@.map_values(|a: CheatAlgorithm| a@),
            detections: self.detections@,
            tick_count: self.tick_count,
        }
    }
}

/// Appends `more` to `out`.
fn extend(out: &mut Vec<Detection>, more: Vec<Detection>)
    ensures
        final(out)@ == old(out)@ + more@,
{
    let ghost start = old(out)@;
    let mut i: usize = 0;
    while i < more.len()
        invariant
            i <= more@.len(),
            out@ == start + more@.take(i as int),
        decreases more.len() - i,
    {
        out.push(more[i]);
        assert(out@ =~= start + more@.take(i + 1));
        i = i + 1;
    }
    assert(more@.take(i as int) =~= more@);
}

/// `a` is well formed and holds no sample after `tick`.
pub open spec fn fits(a: CheatAlgorithm, tick: u32) -> bool {
    a.wf() && algorithm_at_most(a@, tick)
}

/// Every detector of `algs` fits `tick`.
pub open spec fn all_fit(algs: Seq<CheatAlgorithm>, tick: u32) -> bool {
    forall|i: int| 0 <= i < algs.len() ==> fits(#[trigger] algs[i], tick)
}

impl CheatAnalyser {
    /// The detectors are well formed and hold no sample after the current
    /// tick.
    pub closed spec fn wf(&self) -> bool {
        all_fit(self.algorithms@, self.tick_count)
    }

    /// An analyser at tick 0 with the given detectors, which have seen no
    /// sample.
    pub fn new(algorithms: Vec<CheatAlgorithm>) -> (r: CheatAnalyser)
        requires
            all_fit(algorithms@, 0),
        ensures
            r.wf(),
            r@.algorithms == algorithms@.map_values(|a: CheatAlgorithm| a@),
            r@.detections == Seq::<Detection>::empty(),
            r@.tick_count == 0,
    {
        CheatAnalyser {
            algorithms,
            state: CheatAnalyserState { tick: 0, player_states: Vec::new() },
            detections: Vec::new(),
            tick_count: 0,
        }
    }

    /// Prepares the detectors; none needs any preparation.
    pub fn init(&mut self)
        ensures
            final(self)@ == old(self)@,
            final(self).wf() == old(self).wf(),
    {
    }

    /// Feeds the current state to every detector, in order.
    fn run_algorithms(&mut self)
        requires
            old(self).wf(),
            old(self).state.tick == old(self).tick_count,
        ensures
            final(self).wf(),
            final(self).state == old(self).state,
            final(self).tick_count == old(self).tick_count,
            (final(self)@.algorithms, final(self)@.detections) == ({
                let (a, d) = tick_all(
                    old(self)@.algorithms,
                    players_view(old(self).state.player_states@),
                    old(self).tick_count,
                );
                (a, old(self)@.detections + d)
            }),
    {
        let ghost algs0 = self@.algorithms;
        let ghost ps = players_view(self.state.player_states@);
        let ghost d0 = self.detections@;
        let mut i: usize = 0;
        while i < self.algorithms.len()
            invariant
                i <= self.algorithms@.len() == algs0.len(),
                self.state == old(self).state,
                self.tick_count == old(self).tick_count,
                self.state.tick == self.tick_count,
                ps == players_view(self.state.player_states@),
                self.wf(),
                forall|k: int| i <= k < algs0.len() ==> #[trigger] self@.algorithms[k] == algs0[k],
                self@.algorithms.take(i as int) == tick_all(algs0.take(i as int), ps, self.tick_count).0,
                self.detections@ == d0 + tick_all(algs0.take(i as int), ps, self.tick_count).1,
            decreases algs0.len() - i,
        {
            let ghost pre = self@.algorithms;
            let ghost pre_a = self.algorithms@;
            assert(fits(self.algorithms@[i as int], self.tick_count));
            let found = self.algorithms[i].on_tick(&self.state);
            let ghost d1 = self.detections@;
            extend(&mut self.detections, found);
            assert(algs0.take(i + 1).drop_last() =~= algs0.take(i as int));
            assert(algs0.take(i + 1).last() == pre[i as int]);
            assert(self@.algorithms.take(i + 1) =~= pre.take(i as int).push(self@.algorithms[i as int]));
            assert(forall|k: int| 0 <= k < algs0.len() && k != i ==> #[trigger] self@.algorithms[k] == pre[k]);
            assert forall|k: int| 0 <= k < self.algorithms@.len() implies fits(
                #[trigger] self.algorithms@[k],
                self.tick_count,
            ) by {
                if k != i {
                    assert(self.algorithms@[k] == pre_a[k]);
                }
            }
            i = i + 1;
        }
        assert(algs0.take(i as int) =~= algs0);
        assert(self@.algorithms.take(i as int) =~= self@.algorithms);
    }

    /// Advances one tick and feeds the players' state at it to every
    /// detector.
    pub fn handle_tick(&mut self, player_states: Vec<PlayerState>)
        requires
            old(self).wf(),
            old(self)@.tick_count < u32::MAX,
        ensures
            final(self).wf(),
            final(self)@.tick_count == old(self)@.tick_count + 1,
            (final(self)@.algorithms, final(self)@.detections) == ({
                let (a, d) = tick_all(
                    old(self)@.algorithms,
                    players_view(player_states@),
                    (old(self)@.tick_count + 1) as u32,
                );
                (a, old(self)@.detections + d)
            }),
    {
        self.tick_count = self.tick_count + 1;
        self.state = CheatAnalyserState { tick: self.tick_count, player_states };
        proof {
            self.lemma_later_tick(old(self).tick_count);
        }
        self.run_algorithms();
    }

    proof fn lemma_later_tick(&self, earlier: u32)
        requires
            earlier <= self.tick_count,
            all_fit(self.algorithms@, earlier),
        ensures
            self.wf(),
    {
        assert forall|i: int| 0 <= i < self.algorithms@.len() implies fits(
            #[trigger] self.algorithms@[i],
            self.tick_count,
        ) by {
            assert(fits(self.algorithms@[i], earlier));
            if let AlgorithmView::OobPitch { tracks, .. } = self.algorithms@[i]@ {
                assert forall|k: int| 0 <= k < tracks.len() implies (#[trigger] tracks[k].machine.last_tick matches Some(l) ==> l <= self.tick_count) by {
                    assert(tracks[k].machine.last_tick matches Some(l) ==> l <= earlier);
                }
            }
        }
    }

    /// Handles a message packet at `tick`: the current tick becomes `tick`
    /// and, when the packet holds messages, every detector is fed the
    /// players' state. A tick below the current one is refused, with no
    /// change.
    pub fn handle_message(&mut self, player_states: Vec<PlayerState>, has_messages: bool, tick: u32) -> (r: Result<(), SequenceError>)
        requires
            old(self).wf(),
        ensures
            final(self).wf(),
            tick < old(self)@.tick_count ==> r == Err::<(), SequenceError>(
                SequenceError::TickBefore { tick, current: old(self)@.tick_count },
            ) && final(self)@ == old(self)@,
            tick >= old(self)@.tick_count ==> r is Ok && final(self)@.tick_count == tick && (
            final(self)@.algorithms, final(self)@.detections) == (if has_messages {
                let (a, d) = tick_all(old(self)@.algorithms, players_view(player_states@), tick);
                (a, old(self)@.detections + d)
            } else {
                (old(self)@.algorithms, old(self)@.detections)
            }),
    {
        if tick < self.tick_count {
            return Err(SequenceError::TickBefore { tick, current: self.tick_count });
        }
        let ghost earlier = self.tick_count;
        self.tick_count = tick;
        self.state = CheatAnalyserState { tick, player_states };
        proof {
            self.lemma_later_tick(earlier);
        }
        if has_messages {
            self.run_algorithms();
        }
        Ok(())
    }

    /// Handles one packet: a message packet at the current tick, a tick
    /// packet as the next tick, any other packet not at all.
    pub fn handle_packet(&mut self, kind: PacketKind, player_states: Vec<PlayerState>)
        requires
            old(self).wf(),
            kind is Tick ==> old(self)@.tick_count < u32::MAX,
        ensures
            final(self).wf(),
            match kind {
                PacketKind::Message { has_messages } => final(self)@.tick_count == old(self)@.tick_count
                    && (final(self)@.algorithms, final(self)@.detections) == (if has_messages {
                    let (a, d) = tick_all(
                        old(self)@.algorithms,
                        players_view(player_states@),
                        old(self)@.tick_count,
                    );
                    (a, old(self)@.detections + d)
                } else {
                    (old(self)@.algorithms, old(self)@.detections)
                }),
                PacketKind::Tick => final(self)@.tick_count == old(self)@.tick_count + 1 && (
                final(self)@.algorithms, final(self)@.detections) == ({
                    let (a, d) = tick_all(
                        old(self)@.algorithms,
                        players_view(player_states@),
                        (old(self)@.tick_count + 1) as u32,
                    );
                    (a, old(self)@.detections + d)
                }),
                PacketKind::Other => final(self)@ == old(self)@,
            },
    {
        match kind {
            PacketKind::Message { has_messages } => {
                let tick = self.tick_count;
                let _ = self.handle_message(player_states, has_messages, tick);
            },
            PacketKind::Tick => self.handle_tick(player_states),
            PacketKind::Other => {},
        }
    }

    /// Ends the samples: every detector's final detections are collected,
    /// and the periods of the players with sustained out-of-bounds pitch
    /// are returned.
    pub fn finish(&mut self) -> (r: Vec<PlayerPeriods>)
        requires
            old(self).wf(),
        ensures
            final(self).wf(),
            final(self)@.tick_count == old(self)@.tick_count,
            ({
                let (a, d, p) = finish_all(old(self)@.algorithms);
                final(self)@.algorithms == a && final(self)@.detections == old(self)@.detections + d
                    && r@.map_values(|x: PlayerPeriods| (x.player, x.periods@)) == p
            }),
    {
        let ghost algs0 = self@.algorithms;
        let ghost d0 = self.detections@;
        let mut periods: Vec<PlayerPeriods> = Vec::new();
        let mut i: usize = 0;
        while i < self.algorithms.len()
            invariant
                i <= self.algorithms@.len() == algs0.len(),
                self.tick_count == old(self).tick_count,
                self.wf(),
                forall|k: int| i <= k < algs0.len() ==> #[trigger] self@.algorithms[k] == algs0[k],
                self@.algorithms.take(i as int) == finish_all(algs0.take(i as int)).0,
                self.detections@ == d0 + finish_all(algs0.take(i as int)).1,
                periods@.map_values(|x: PlayerPeriods| (x.player, x.periods@)) == finish_all(
                    algs0.take(i as int),
                ).2,
            decreases algs0.len() - i,
        {
            let ghost pre = self@.algorithms;
            let ghost pre_a = self.algorithms@;
            assert(fits(self.algorithms@[i as int], self.tick_count));
            let (found, more) = self.algorithms[i].finish();
            let ghost more_v = more@.map_values(|x: PlayerPeriods| (x.player, x.periods@));
            extend(&mut self.detections, found);
            let ghost p0 = periods@;
            let mut more = more;
            periods.append(&mut more);
            assert(periods@.map_values(|x: PlayerPeriods| (x.player, x.periods@)) =~= p0.map_values(
                |x: PlayerPeriods| (x.player, x.periods@),
            ) + more_v);
            assert(algs0.take(i + 1).drop_last() =~= algs0.take(i as int));
            assert(algs0.take(i + 1).last() == pre[i as int]);
            assert(self@.algorithms.take(i + 1) =~= pre.take(i as int).push(self@.algorithms[i as int]));
            assert(forall|k: int| 0 <= k < algs0.len() && k != i ==> #[trigger] self@.algorithms[k] == pre[k]);
            assert forall|k: int| 0 <= k < self.algorithms@.len() implies fits(
                #[trigger] self.algorithms@[k],
                self.tick_count,
            ) by {
                if k != i {
                    assert(self.algorithms@[k] == pre_a[k]);
                }
            }
            i = i + 1;
        }
        assert(algs0.take(i as int) =~= algs0);
        assert(self@.algorithms.take(i as int) =~= self@.algorithms);
        periods
    }

    /// The detections collected so far, in emission order.
    pub fn get_detections(&self) -> (r: &Vec<Detection>)
        ensures
            r@ == self@.detections,
    {
        &self.detections
    }

    /// The detectors, in order.
    pub fn algorithms(&self) -> (r: &Vec<CheatAlgorithm>)
        ensures
            r@.map_values(|a: CheatAlgorithm| a@) == self@.algorithms,
            self.wf() ==> forall|i: int| 0 <= i < r@.len() ==> (#[trigger] r@[i]).wf(),
    {
        &self.algorithms
    }

    /// The current tick.
    pub fn get_tick_count_u32(&self) -> (r: u32)
        ensures
            r == self@.tick_count,
    {
        self.tick_count
    }
}

} // verus!
