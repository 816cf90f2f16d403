//! Sustained out-of-bounds pitch: a per-player state machine that merges
//! violating samples into gap-tolerant runs and reports the runs that last
//! long enough.
use crate::angle::abs;
use crate::detection::{Detection, DetectorKind, Finding};
use crate::sample::{check_order, ticks_sorted, Entry, SequenceError};
use vstd::prelude::*;

verus! {

/// Parameters of the detector; pitch values in hundredths of a degree.
#[derive(Clone, Copy, Debug, PartialEq, Eq, Structural)]
pub struct OobConfig {
    /// A sample violates when its absolute pitch exceeds this.
    pub threshold: u32,
    /// Fewest violating samples a reported run holds.
    pub min_consecutive: u64,
    /// Largest tick difference to the previous sample that keeps a run going.
    pub max_gap: u32,
    /// Samples before this tick are ignored.
    pub ignore_initial: u32,
    /// Smallest `end_tick - start_tick` of a reported run.
    pub min_duration: u32,
}

impl OobConfig {
    /// Threshold 89.8 degrees, 4 samples, gap 2, first 10 ticks ignored,
    /// duration 5.
    pub fn defaults() -> (r: OobConfig)
        ensures
            r == (OobConfig {
                threshold: 8980,
                min_consecutive: 4,
                max_gap: 2,
                ignore_initial: 10,
                min_duration: 5,
            }),
    {
        OobConfig { threshold: 8980, min_consecutive: 4, max_gap: 2, ignore_initial: 10, min_duration: 5 }
    }
}

/// A reported run: ticks `start_tick..=end_tick`, largest absolute pitch.
#[derive(Clone, Copy, Debug, PartialEq, Eq, Structural)]
pub struct ViolationPeriod {
    pub start_tick: u32,
    pub end_tick: u32,
    pub max_pitch: u32,
}

/// A run in progress.
#[derive(Clone, Copy, Debug, PartialEq, Eq, Structural)]
pub struct Run {
    pub start_tick: u32,
    /// Tick of the latest violating sample.
    pub last_tick: u32,
    pub max_pitch: u32,
    /// Violating samples so far (saturating).
    pub count: u64,
}

/// Per-player state: the tick of the last sample taken into account, and
/// the run in progress.
#[derive(Clone, Copy, Debug, PartialEq, Eq, Structural)]
pub struct Machine {
    pub last_tick: Option<u32>,
    pub run: Option<Run>,
}

/// The state before any sample.
pub open spec fn idle() -> Machine {
    Machine { last_tick: None, run: None }
}

/// Absolute pitch.
pub open spec fn pitch_magnitude(pitch: i32) -> u32 {
    abs(pitch as int) as u32
}

/// The period that closing `run` reports, if it passes both the count and
/// the duration test.
pub open spec fn close_run(cfg: OobConfig, run: Run) -> Option<ViolationPeriod> {
    if run.count >= cfg.min_consecutive && run.last_tick - run.start_tick >= cfg.min_duration {
        Some(
            ViolationPeriod {
                start_tick: run.start_tick,
                end_tick: run.last_tick,
                max_pitch: run.max_pitch,
            },
        )
    } else {
        None
    }
}

/// A run that starts with one violating sample.
pub open spec fn start_run(tick: u32, magnitude: u32) -> Run {
    Run { start_tick: tick, last_tick: tick, max_pitch: magnitude, count: 1 }
}

/// A sample is taken into account when it lies past the ignored ticks.
pub open spec fn counted(cfg: OobConfig, tick: u32) -> bool {
    tick >= cfg.ignore_initial
}

/// A sample comes out of order when it precedes the last one taken into
/// account.
pub open spec fn out_of_order(m: Machine, tick: u32) -> bool {
    match m.last_tick {
        Some(l) => tick < l,
        None => false,
    }
}

/// One transition: the next state, and the period closed by the sample.
pub open spec fn step(cfg: OobConfig, m: Machine, tick: u32, pitch: i32) -> (Machine, Option<ViolationPeriod>) {
    if !counted(cfg, tick) {
        (m, None)
    } else {
        let a = pitch_magnitude(pitch);
        let gap = match m.last_tick {
            Some(l) => tick - l > cfg.max_gap,
            None => false,
        };
        if a > cfg.threshold {
            match m.run {
                Some(r) => if gap {
                    (Machine { last_tick: Some(tick), run: Some(start_run(tick, a)) }, close_run(cfg, r))
                } else {
                    (
                        Machine {
                            last_tick: Some(tick),
                            run: Some(
                                Run {
                                    start_tick: r.start_tick,
                                    last_tick: tick,
                                    max_pitch: if a > r.max_pitch { a } else { r.max_pitch },
                                    count: if r.count < u64::MAX { (r.count + 1) as u64 } else { r.count },
                                },
                            ),
                        },
                        None,
                    )
                },
                None => (Machine { last_tick: Some(tick), run: Some(start_run(tick, a)) }, None),
            }
        } else {
            match m.run {
                Some(r) => (Machine { last_tick: Some(tick), run: None }, close_run(cfg, r)),
                None => (Machine { last_tick: Some(tick), run: None }, None),
            }
        }
    }
}

/// The period reported when the samples end, if a run is in progress.
pub open spec fn close_machine(cfg: OobConfig, m: Machine) -> Option<ViolationPeriod> {
    match m.run {
        Some(r) => close_run(cfg, r),
        None => None,
    }
}

/// Runs the transition function; the caller has checked the order.
pub fn step_machine(cfg: &OobConfig, m: Machine, tick: u32, pitch: i32) -> (r: (
    Machine,
    Option<ViolationPeriod>,
))
    requires
        !out_of_order(m, tick),
    ensures
        r == step(*cfg, m, tick, pitch),
{
    if tick < cfg.ignore_initial {
        return (m, None);
    }
    let a: u32 = if pitch < 0 {
        (-(pitch as i64)) as u32
    } else {
        pitch as u32
    };
    let gap = match m.last_tick {
        Some(l) => tick - l > cfg.max_gap,
        None => false,
    };
    if a > cfg.threshold {
        match m.run {
            Some(r) => {
                if gap {
                    (
                        Machine {
                            last_tick: Some(tick),
                            run: Some(Run { start_tick: tick, last_tick: tick, max_pitch: a, count: 1 }),
                        },
                        close_period(cfg, &r),
                    )
                } else {
                    let count = if r.count < u64::MAX {
                        r.count + 1
                    } else {
                        r.count
                    };
                    let max_pitch = if a > r.max_pitch {
                        a
                    } else {
                        r.max_pitch
                    };
                    (
                        Machine {
                            last_tick: Some(tick),
                            run: Some(Run { start_tick: r.start_tick, last_tick: tick, max_pitch, count }),
                        },
                        None,
                    )
                }
            },
            None => (
                Machine {
                    last_tick: Some(tick),
                    run: Some(Run { start_tick: tick, last_tick: tick, max_pitch: a, count: 1 }),
                },
                None,
            ),
        }
    } else {
        match m.run {
            Some(r) => (Machine { last_tick: Some(tick), run: None }, close_period(cfg, &r)),
            None => (Machine { last_tick: Some(tick), run: None }, None),
        }
    }
}

/// Applies the emission test to a run.
pub fn close_period(cfg: &OobConfig, run: &Run) -> (r: Option<ViolationPeriod>)
    ensures
        r == close_run(*cfg, *run),
{
    if run.count >= cfg.min_consecutive && run.last_tick >= run.start_tick && run.last_tick
        - run.start_tick >= cfg.min_duration {
        Some(
            ViolationPeriod {
                start_tick: run.start_tick,
                end_tick: run.last_tick,
                max_pitch: run.max_pitch,
            },
        )
    } else {
        None
    }
}

/// The detections that report period `p` of `player`: one per tick of
/// `p.start_tick..=p.end_tick`.
pub open spec fn period_detections(player: u64, p: ViolationPeriod) -> Seq<Detection> {
    Seq::new(
        (p.end_tick - p.start_tick + 1) as nat,
        |i: int|
            Detection {
                tick: (p.start_tick + i) as u32,
                detector: DetectorKind::SustainedOutOfBounds,
                player,
                finding: Finding::SustainedOutOfBounds {
                    start_tick: p.start_tick,
                    end_tick: p.end_tick,
                    max_pitch: p.max_pitch,
                },
            },
    )
}

/// The detections of each period in `ps`, in order.
pub open spec fn periods_detections(player: u64, ps: Seq<ViolationPeriod>) -> Seq<Detection>
    decreases ps.len(),
{
    if ps.len() == 0 {
        Seq::empty()
    } else {
        periods_detections(player, ps.drop_last()) + period_detections(player, ps.last())
    }
}

/// The periods in an optional period.
pub open spec fn opt_seq(c: Option<ViolationPeriod>) -> Seq<ViolationPeriod> {
    match c {
        Some(p) => seq![p],
        None => Seq::empty(),
    }
}

/// The state after the samples of `s`, from `m`, and the periods they close.
pub open spec fn run_samples(cfg: OobConfig, m: Machine, s: Seq<Entry>) -> (Machine, Seq<ViolationPeriod>)
    decreases s.len(),
{
    if s.len() == 0 {
        (m, Seq::empty())
    } else {
        let (m1, ps) = run_samples(cfg, m, s.drop_last());
        let (m2, c) = step(cfg, m1, s.last().sample.tick, s.last().sample.pitch);
        (m2, ps + opt_seq(c))
    }
}

/// Every period that a whole series reports, the run still open at its end
/// included.
pub open spec fn series_periods(cfg: OobConfig, s: Seq<Entry>) -> Seq<ViolationPeriod> {
    let (m, ps) = run_samples(cfg, idle(), s);
    ps + opt_seq(close_machine(cfg, m))
}

/// A period passes the duration test and spans at least one tick.
pub open spec fn passes_duration(cfg: OobConfig, p: ViolationPeriod) -> bool {
    p.start_tick <= p.end_tick && p.end_tick - p.start_tick >= cfg.min_duration
}

proof fn lemma_step_passes(cfg: OobConfig, m: Machine, tick: u32, pitch: i32)
    ensures
        step(cfg, m, tick, pitch).1 matches Some(p) ==> passes_duration(cfg, p),
{
}

proof fn lemma_run_passes(cfg: OobConfig, m: Machine, s: Seq<Entry>)
    ensures
        forall|k: int|
            0 <= k < run_samples(cfg, m, s).1.len() ==> passes_duration(
                cfg,
                #[trigger] run_samples(cfg, m, s).1[k],
            ),
    decreases s.len(),
{
    if s.len() > 0 {
        lemma_run_passes(cfg, m, s.drop_last());
        let (m1, ps) = run_samples(cfg, m, s.drop_last());
        lemma_step_passes(cfg, m1, s.last().sample.tick, s.last().sample.pitch);
        let c = step(cfg, m1, s.last().sample.tick, s.last().sample.pitch).1;
        assert forall|k: int| 0 <= k < (ps + opt_seq(c)).len() implies passes_duration(
            cfg,
            #[trigger] (ps + opt_seq(c))[k],
        ) by {
            if k >= ps.len() {
                assert(opt_seq(c)[k - ps.len()] == c->Some_0);
            }
        }
    }
}

/// Every period that a series reports lasted long enough: its last tick is
/// at least the minimum duration after its first.
pub proof fn lemma_series_periods_long_enough(cfg: OobConfig, s: Seq<Entry>)
    ensures
        forall|k: int|
            0 <= k < series_periods(cfg, s).len() ==> passes_duration(
                cfg,
                #[trigger] series_periods(cfg, s)[k],
            ),
{
    lemma_run_passes(cfg, idle(), s);
    let (m, ps) = run_samples(cfg, idle(), s);
    let c = close_machine(cfg, m);
    assert forall|k: int| 0 <= k < (ps + opt_seq(c)).len() implies passes_duration(
        cfg,
        #[trigger] (ps + opt_seq(c))[k],
    ) by {
        if k >= ps.len() {
            assert(opt_seq(c)[k - ps.len()] == c->Some_0);
        }
    }
}

/// Appends the detections of period `p` to `out`.
pub fn push_period_detections(out: &mut Vec<Detection>, player: u64, p: &ViolationPeriod)
    requires
        p.start_tick <= p.end_tick,
    ensures
        final(out)@ == old(out)@ + period_detections(player, *p),
{
    let ghost base = old(out)@;
    let mut t: u64 = p.start_tick as u64;
    while t <= p.end_tick as u64
        invariant
            p.start_tick <= t <= p.end_tick as u64 + 1,
            out@ == base + period_detections(player, *p).take(t - p.start_tick),
        decreases p.end_tick as u64 + 1 - t,
    {
        out.push(
            Detection {
                tick: t as u32,
                detector: DetectorKind::SustainedOutOfBounds,
                player,
                finding: Finding::SustainedOutOfBounds {
                    start_tick: p.start_tick,
                    end_tick: p.end_tick,
                    max_pitch: p.max_pitch,
                },
            },
        );
        assert(period_detections(player, *p).take(t + 1 - p.start_tick) =~= period_detections(
            player,
            *p,
        ).take(t - p.start_tick).push(out@.last()));
        t = t + 1;
    }
    assert(period_detections(player, *p).take(t - p.start_tick) =~= period_detections(player, *p));
}

proof fn lemma_single_period(player: u64, p: ViolationPeriod)
    ensures
        periods_detections(player, seq![p]) == period_detections(player, p),
        periods_detections(player, Seq::empty()) == Seq::<Detection>::empty(),
{
    let e = Seq::<ViolationPeriod>::empty();
    assert(periods_detections(player, e) == Seq::<Detection>::empty());
    assert(seq![p].drop_last() =~= e);
    assert(seq![p].last() == p);
    assert(Seq::<Detection>::empty() + period_detections(player, p) =~= period_detections(player, p));
}

/// A period that the emission test passes spans at least one tick.
proof fn lemma_closed_ordered(cfg: OobConfig, run: Run)
    ensures
        close_run(cfg, run) matches Some(p) ==> p.start_tick <= p.end_tick,
{
}

/// Runs the detector over one player's whole series: the periods it reports
/// and their detections.
pub fn scan_series(cfg: &OobConfig, player: u64, entries: &[Entry]) -> (r: Result<
    (Vec<ViolationPeriod>, Vec<Detection>),
    SequenceError,
>)
    ensures
        r is Ok <==> ticks_sorted(entries@),
        r matches Err(SequenceError::OutOfOrder { player: p, .. }) ==> p == player,
        r matches Ok((ps, ds)) ==> ps@ == series_periods(*cfg, entries@) && ds@
            == periods_detections(player, ps@),
{
    check_order(player, entries)?;
    let mut m = Machine { last_tick: None, run: None };
    let mut periods: Vec<ViolationPeriod> = Vec::new();
    let mut detections: Vec<Detection> = Vec::new();
    let mut i: usize = 0;
    while i < entries.len()
        invariant
            ticks_sorted(entries@),
            i <= entries@.len(),
            (m, periods@) == run_samples(*cfg, idle(), entries@.take(i as int)),
            detections@ == periods_detections(player, periods@),
            m.last_tick matches Some(l) ==> forall|j: int|
                i <= j < entries@.len() ==> l <= #[trigger] entries@[j].sample.tick,
            forall|k: int| 0 <= k < periods@.len() ==> #[trigger] periods@[k].start_tick <= periods@[k].end_tick,
        decreases entries.len() - i,
    {
        let e = entries[i];
        assert(entries@.take(i + 1).drop_last() =~= entries@.take(i as int));
        let ghost old_m = m;
        let (m2, closed) = step_machine(cfg, m, e.sample.tick, e.sample.pitch);
        proof {
            if let Some(r) = old_m.run {
                lemma_closed_ordered(*cfg, r);
            }
        }
        m = m2;
        if let Some(p) = closed {
            let ghost old_p = periods@;
            periods.push(p);
            push_period_detections(&mut detections, player, &p);
            assert(periods@.drop_last() =~= old_p);
        } else {
            assert(periods@ =~= periods@ + Seq::<ViolationPeriod>::empty());
        }
        i = i + 1;
    }
    assert(entries@.take(i as int) =~= entries@);
    if let Some(r) = m.run {
        let c = close_period(cfg, &r);
        proof {
            lemma_closed_ordered(*cfg, r);
        }
        if let Some(p) = c {
            let ghost old_p = periods@;
            periods.push(p);
            push_period_detections(&mut detections, player, &p);
            assert(periods@.drop_last() =~= old_p);
        } else {
            assert(periods@ =~= periods@ + Seq::<ViolationPeriod>::empty());
        }
    } else {
        assert(periods@ =~= periods@ + Seq::<ViolationPeriod>::empty());
    }
    Ok((periods, detections))
}

/// One player's state inside the streaming detector.
pub struct PlayerTrack {
    pub player: u64,
    pub machine: Machine,
    /// Periods reported so far, in order.
    pub periods: Vec<ViolationPeriod>,
}

/// The mathematical content of a [`PlayerTrack`].
pub struct TrackView {
    pub player: u64,
    pub machine: Machine,
    pub periods: Seq<ViolationPeriod>,
}

impl View for PlayerTrack {
    type V = TrackView;

    open spec fn view(&self) -> TrackView {
        TrackView { player: self.player, machine: self.machine, periods: self.periods@ }
    }
}

/// Index of the last track of `player` in `s`, or -1.
pub open spec fn track_position(s: Seq<TrackView>, player: u64) -> int
    decreases s.len(),
{
    if s.len() == 0 {
        -1
    } else if s.last().player == player {
        s.len() - 1
    } else {
        track_position(s.drop_last(), player)
    }
}

/// `track_position` finds a track of the player, or none.
pub proof fn lemma_track_position(s: Seq<TrackView>, player: u64)
    ensures
        -1 <= track_position(s, player) < s.len(),
        track_position(s, player) >= 0 ==> s[track_position(s, player)].player == player,
    decreases s.len(),
{
    if s.len() > 0 && s.last().player != player {
        lemma_track_position(s.drop_last(), player);
    }
}

/// The state of `player` in `s`.
pub open spec fn machine_of(s: Seq<TrackView>, player: u64) -> Machine {
    let i = track_position(s, player);
    if i < 0 {
        idle()
    } else {
        s[i].machine
    }
}

/// `s` after one sample of `player`.
pub open spec fn observed(cfg: OobConfig, s: Seq<TrackView>, player: u64, tick: u32, pitch: i32) -> Seq<TrackView> {
    let i = track_position(s, player);
    let (m, c) = step(cfg, machine_of(s, player), tick, pitch);
    if i < 0 {
        s.push(TrackView { player, machine: m, periods: opt_seq(c) })
    } else {
        s.update(i, TrackView { player, machine: m, periods: s[i].periods + opt_seq(c) })
    }
}

/// A track after the end of its samples.
pub open spec fn finished_track(cfg: OobConfig, t: TrackView) -> TrackView {
    TrackView {
        player: t.player,
        machine: Machine { last_tick: t.machine.last_tick, run: None },
        periods: t.periods + opt_seq(close_machine(cfg, t.machine)),
    }
}

/// The detections that the end of the samples brings, track by track.
pub open spec fn finish_detections(cfg: OobConfig, s: Seq<TrackView>) -> Seq<Detection>
    decreases s.len(),
{
    if s.len() == 0 {
        Seq::empty()
    } else {
        finish_detections(cfg, s.drop_last()) + periods_detections(
            s.last().player,
            opt_seq(close_machine(cfg, s.last().machine)),
        )
    }
}

/// The players with at least one period, each with its periods, in track
/// order.
pub open spec fn reported(s: Seq<TrackView>) -> Seq<(u64, Seq<ViolationPeriod>)>
    decreases s.len(),
{
    if s.len() == 0 {
        Seq::empty()
    } else if s.last().periods.len() == 0 {
        reported(s.drop_last())
    } else {
        reported(s.drop_last()).push((s.last().player, s.last().periods))
    }
}

/// Every reported period spans at least one tick.
pub open spec fn tracks_wf(s: Seq<TrackView>) -> bool {
    forall|i: int, k: int|
        0 <= i < s.len() && 0 <= k < s[i].periods.len() ==> #[trigger] s[i].periods[k].start_tick
            <= s[i].periods[k].end_tick
}

/// The reported periods of one player.
pub struct PlayerPeriods {
    pub player: u64,
    pub periods: Vec<ViolationPeriod>,
}

/// What closing the streaming detector returns: the detections of the runs
/// still open, and every player's reported periods.
pub struct OobReport {
    pub detections: Vec<Detection>,
    pub players: Vec<PlayerPeriods>,
}

/// The sustained out-of-bounds detector, fed one sample at a time.
pub struct OobDetector {
    config: OobConfig,
    tracks: Vec<PlayerTrack>,
}

impl View for OobDetector {
    type V = Seq<TrackView>;

    closed spec fn view(&self) -> Seq<TrackView> {
        self.tracks@.map_values(|t: PlayerTrack| t@)
    }
}

/// A copy of `v`.
fn copy_periods(v: &Vec<ViolationPeriod>) -> (r: Vec<ViolationPeriod>)
    ensures
        r@ == v@,
{
    let mut r: Vec<ViolationPeriod> = Vec::new();
    let mut i: usize = 0;
    while i < v.len()
        invariant
            i <= v.len(),
            r@ == v@.take(i as int),
        decreases v.len() - i,
    {
        r.push(v[i]);
        assert(r@ =~= v@.take(i + 1));
        i = i + 1;
    }
    assert(v@.take(i as int) =~= v@);
    r
}

impl OobDetector {
    pub open spec fn wf(&self) -> bool {
        tracks_wf(self@)
    }

    /// The parameters the detector runs with.
    pub closed spec fn settings(&self) -> OobConfig {
        self.config
    }

    /// The parameters the detector runs with.
    pub fn config(&self) -> (r: OobConfig)
        ensures
            r == self.settings(),
    {
        self.config
    }

    /// A detector with no samples seen.
    pub fn new(config: OobConfig) -> (r: OobDetector)
        ensures
            r.settings() == config,
            r@ == Seq::<TrackView>::empty(),
            r.wf(),
    {
        OobDetector { config, tracks: Vec::new() }
    }

    fn find(&self, player: u64) -> (r: Option<usize>)
        ensures
            match r {
                Some(i) => i == track_position(self@, player) && i < self.tracks.len(),
                None => track_position(self@, player) < 0,
            },
    {
        let mut k: usize = self.tracks.len();
        proof {
            lemma_track_position(self@, player);
            assert(self@.take(k as int) =~= self@);
        }
        while k > 0
            invariant
                k <= self.tracks.len(),
                track_position(self@, player) == track_position(self@.take(k as int), player),
            decreases k,
        {
            assert(self@.take(k as int).last() == self.tracks[k - 1]@);
            if self.tracks[k - 1].player == player {
                return Some(k - 1);
            }
            assert(self@.take(k as int).drop_last() =~= self@.take(k - 1));
            k = k - 1;
        }
        None
    }

    /// Feeds the next sample of `player`. Returns the detections of the
    /// period that the sample closes, or an error, with no change, when the
    /// sample precedes the player's last sample.
    pub fn observe(&mut self, player: u64, tick: u32, pitch: i32) -> (r: Result<
        Vec<Detection>,
        SequenceError,
    >)
        requires
            old(self).wf(),
        ensures
            final(self).wf(),
            final(self).settings() == old(self).settings(),
            out_of_order(machine_of(old(self)@, player), tick) ==> final(self)@ == old(self)@ && r
                == Err::<Vec<Detection>, SequenceError>(
                SequenceError::OutOfOrder {
                    player,
                    tick,
                    previous: machine_of(old(self)@, player).last_tick->Some_0,
                },
            ),
            !out_of_order(machine_of(old(self)@, player), tick) ==> (final(self)@ == observed(
                old(self).settings(),
                old(self)@,
                player,
                tick,
                pitch,
            ) && (r matches Ok(ds) && ds@ == periods_detections(
                player,
                opt_seq(step(old(self).settings(), machine_of(old(self)@, player), tick, pitch).1),
            ))),
    {
        proof {
            lemma_track_position(self@, player);
        }
        let found = self.find(player);
        let m = match found {
            Some(i) => self.tracks[i].machine,
            None => Machine { last_tick: None, run: None },
        };
        if let Some(l) = m.last_tick {
            if tick < l {
                return Err(SequenceError::OutOfOrder { player, tick, previous: l });
            }
        }
        let (m2, closed) = step_machine(&self.config, m, tick, pitch);
        proof {
            if let Some(r) = m.run {
                lemma_closed_ordered(self.config, r);
            }
        }
        let mut detections: Vec<Detection> = Vec::new();
        let mut added: Vec<ViolationPeriod> = Vec::new();
        if let Some(p) = closed {
            added.push(p);
            push_period_detections(&mut detections, player, &p);
            assert(added@ =~= opt_seq(closed));
            proof {
                lemma_single_period(player, p);
            }
            assert(detections@ =~= period_detections(player, p));
        } else {
            assert(added@ =~= opt_seq(closed));
            proof {
                lemma_single_period(player, ViolationPeriod { start_tick: 0, end_tick: 0, max_pitch: 0 });
            }
        }
        match found {
            Some(i) => {
                let ghost old_periods = self@[i as int].periods;
                self.tracks[i].machine = m2;
                if let Some(p) = closed {
                    self.tracks[i].periods.push(p);
                    assert(self@[i as int].periods =~= old_periods + opt_seq(closed));
                } else {
                    assert(self@[i as int].periods =~= old_periods + opt_seq(closed));
                }
                assert(self@ =~= observed(old(self).settings(), old(self)@, player, tick, pitch));
            },
            None => {
                self.tracks.push(PlayerTrack { player, machine: m2, periods: added });
                assert(self@ =~= observed(old(self).settings(), old(self)@, player, tick, pitch));
            },
        }
        Ok(detections)
    }

    /// Ends every player's samples: closes the runs still open, and returns
    /// their detections with every player's reported periods.
    pub fn finish(&mut self) -> (r: OobReport)
        requires
            old(self).wf(),
        ensures
            final(self).wf(),
            final(self).settings() == old(self).settings(),
            final(self)@ == old(self)@.map_values(|t: TrackView| finished_track(old(self).settings(), t)),
            r.detections@ == finish_detections(old(self).settings(), old(self)@),
            r.players@.map_values(|p: PlayerPeriods| (p.player, p.periods@)) == reported(
                final(self)@,
            ),
    {
        let ghost s0 = self@;
        let mut detections: Vec<Detection> = Vec::new();
        let mut players: Vec<PlayerPeriods> = Vec::new();
        let mut i: usize = 0;
        while i < self.tracks.len()
            invariant
                i <= self.tracks.len() == s0.len(),
                self.config == old(self).settings(),
                tracks_wf(s0),
                tracks_wf(self@),
                forall|k: int|
                    0 <= k < i ==> #[trigger] self@[k] == finished_track(self.config, s0[k]),
                forall|k: int| i <= k < s0.len() ==> #[trigger] self@[k] == s0[k],
                detections@ == finish_detections(self.config, s0.take(i as int)),
                players@.map_values(|p: PlayerPeriods| (p.player, p.periods@)) == reported(
                    self@.take(i as int),
                ),
            decreases s0.len() - i,
        {
            let ghost t0 = self@[i as int];
            let ghost pre = self@;
            let player = self.tracks[i].player;
            let ghost d0 = detections@;
            if let Some(r) = self.tracks[i].machine.run {
                let c = close_period(&self.config, &r);
                proof {
                    lemma_closed_ordered(self.config, r);
                }
                if let Some(p) = c {
                    self.tracks[i].periods.push(p);
                    push_period_detections(&mut detections, player, &p);
                    proof {
                        lemma_single_period(player, p);
                    }
                } else {
                    assert(detections@ =~= d0 + periods_detections(player, opt_seq(c)));
                }
                self.tracks[i].machine.run = None;
            } else {
                assert(detections@ =~= d0 + periods_detections(player, Seq::empty()));
            }
            assert(self@[i as int].periods =~= t0.periods + opt_seq(close_machine(self.config, t0.machine)));
            assert(s0.take(i + 1).drop_last() =~= s0.take(i as int));
            assert(self@.take(i + 1).drop_last() =~= self@.take(i as int));
            assert(self@.take(i as int) =~= pre.take(i as int));
            assert(self@[i as int] == finished_track(self.config, t0));
            assert(forall|k: int| 0 <= k < s0.len() && k != i ==> #[trigger] self@[k] == pre[k]);
            assert forall|a: int, k: int|
                0 <= a < self@.len() && 0 <= k < self@[a].periods.len() implies #[trigger] self@[a].periods[k].start_tick
                    <= self@[a].periods[k].end_tick by {
                if a != i {
                    assert(self@[a] == pre[a]);
                } else if k < t0.periods.len() {
                    assert(self@[a].periods[k] == t0.periods[k]);
                    assert(pre[a].periods[k] == t0.periods[k]);
                }
            }
            if self.tracks[i].periods.len() > 0 {
                let copy = copy_periods(&self.tracks[i].periods);
                players.push(PlayerPeriods { player, periods: copy });
                assert(players@.map_values(|p: PlayerPeriods| (p.player, p.periods@)) =~= reported(
                    self@.take(i + 1),
                ));
            } else {
                assert(players@.map_values(|p: PlayerPeriods| (p.player, p.periods@)) =~= reported(
                    self@.take(i + 1),
                ));
            }
            i = i + 1;
        }
        assert(s0.take(i as int) =~= s0);
        assert(self@.take(i as int) =~= self@);
        assert(self@ =~= s0.map_values(|t: TrackView| finished_track(self.config, t)));
        OobReport { detections, players }
    }
}

} // verus!
