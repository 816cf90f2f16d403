//! Batch analysis of a whole recorded session: every detector over every
//! player's stored series, merged into one list ordered by tick.
use crate::detection::{lemma_sort_by_tick, sort_by_tick, sort_detections, sorted_by_tick, Detection};
use crate::flick::{scan_flicks, series_flicks, FlickConfig};
use crate::oob::{periods_detections, scan_series, series_periods, OobConfig};
use crate::psilent::{return_hits, scan_returns, DEFAULT_RETURN_THRESHOLD};
use crate::sample::{
    entries_wf, lemma_wf_in_range, store_wf, ticks_sorted, PlayerSeries, SampleStore,
    SequenceError, SeriesView,
};
use vstd::prelude::*;

verus! {

/// Parameters of a batch run.
#[derive(Clone, Copy, Debug, PartialEq, Eq, Structural)]
pub struct BatchConfig {
    pub flick: FlickConfig,
    /// Largest distance, in hundredths of a degree, between the first and
    /// third sample of a return-to-origin window.
    pub return_threshold: u32,
    pub oob: OobConfig,
}

impl BatchConfig {
    /// The batch defaults of each detector.
    pub fn defaults() -> (r: BatchConfig)
        ensures
            r == (BatchConfig {
                flick: FlickConfig { yaw_threshold: 4500, pitch_threshold: 3000, max_pitch: 8980 },
                return_threshold: 100,
                oob: OobConfig {
                    threshold: 8980,
                    min_consecutive: 4,
                    max_gap: 2,
                    ignore_initial: 10,
                    min_duration: 5,
                },
            }),
    {
        BatchConfig {
            flick: FlickConfig::batch_defaults(),
            return_threshold: DEFAULT_RETURN_THRESHOLD,
            oob: OobConfig::defaults(),
        }
    }
}

/// What the three detectors report on one series, detector by detector.
pub open spec fn series_detections(cfg: BatchConfig, s: SeriesView) -> Seq<Detection> {
    series_flicks(cfg.flick, s.player, s.entries) + return_hits(
        s.player,
        s.entries,
        cfg.return_threshold,
    ) + periods_detections(s.player, series_periods(cfg.oob, s.entries))
}

/// What the detectors report on every series, series by series.
pub open spec fn session_detections(cfg: BatchConfig, s: Seq<SeriesView>) -> Seq<Detection>
    decreases s.len(),
{
    if s.len() == 0 {
        Seq::empty()
    } else {
        session_detections(cfg, s.drop_last()) + series_detections(cfg, s.last())
    }
}

/// The result of a batch run: every detection, stably sorted by tick.
pub open spec fn session_report(cfg: BatchConfig, s: Seq<SeriesView>) -> Seq<Detection> {
    sort_by_tick(session_detections(cfg, s))
}

/// Every series has non-decreasing ticks.
pub open spec fn all_sorted(s: Seq<SeriesView>) -> bool {
    forall|i: int| 0 <= i < s.len() ==> ticks_sorted(#[trigger] s[i].entries)
}

/// The detections of a full-session batch run never decrease in tick, and
/// they are exactly the detectors' outputs, each as many times, whatever
/// order the detectors were evaluated in.
pub proof fn lemma_session_ordered(cfg: BatchConfig, s: Seq<SeriesView>)
    ensures
        sorted_by_tick(session_report(cfg, s)),
        session_report(cfg, s).to_multiset() == session_detections(cfg, s).to_multiset(),
{
    lemma_sort_by_tick(session_detections(cfg, s));
}

fn append_all(out: &mut Vec<Detection>, more: Vec<Detection>)
    ensures
        final(out)@ == old(out)@ + more@,
{
    let ghost start = old(out)@;
    let mut i: usize = 0;
    while i < more.len()
        invariant
            i <= more@.len(),
            out@ == start + more@.take(i as int),
        decreases more.len() - i,
    {
        out.push(more[i]);
        assert(out@ =~= start + more@.take(i + 1));
        i = i + 1;
    }
    assert(more@.take(i as int) =~= more@);
}

/// Runs every detector over every stored series and merges the detections
/// in tick order. Fails when a series has a decreasing tick.
pub fn analyze_session(store: &SampleStore, cfg: &BatchConfig) -> (r: Result<
    Vec<Detection>,
    SequenceError,
>)
    requires
        store.wf(),
    ensures
        r is Ok <==> all_sorted(store@),
        r matches Ok(v) ==> v@ == session_report(*cfg, store@),
        r matches Err(SequenceError::OutOfOrder { player, .. }) ==> exists|i: int|
            0 <= i < store@.len() && (#[trigger] store@[i]).player == player && !ticks_sorted(
                store@[i].entries,
            ),
{
    let series = store.series();
    let ghost v = store@;
    let mut all: Vec<Detection> = Vec::new();
    let mut i: usize = 0;
    while i < series.len()
        invariant
            i <= series@.len() == v.len(),
            v == store@,
            series@.map_values(|p: PlayerSeries| p@) == v,
            store_wf(v),
            all_sorted(v.take(i as int)),
            all@ == session_detections(*cfg, v.take(i as int)),
        decreases series.len() - i,
    {
        let p = &series[i];
        assert(v[i as int] == p@);
        proof {
            assert(entries_wf(v[i as int].entries));
            lemma_wf_in_range(p.entries@);
        }
        let entries = p.entries.as_slice();
        let oob = scan_series(&cfg.oob, p.player, entries);
        match oob {
            Err(e) => {
                assert(store@[i as int] == v[i as int]);
                assert(!ticks_sorted(store@[i as int].entries));
                assert(store@[i as int].player == p.player);
                return Err(e);
            },
            Ok((_, oob_detections)) => {
                let flicks = scan_flicks(&cfg.flick, p.player, entries);
                let swings = scan_returns(p.player, entries, cfg.return_threshold);
                let ghost before = all@;
                append_all(&mut all, flicks);
                append_all(&mut all, swings);
                append_all(&mut all, oob_detections);
                assert(v.take(i + 1).drop_last() =~= v.take(i as int));
                assert(all@ =~= session_detections(*cfg, v.take(i + 1)));
                assert forall|k: int| 0 <= k < i + 1 implies ticks_sorted(
                    #[trigger] v.take(i + 1)[k].entries,
                ) by {
                    if k < i {
                        assert(v.take(i + 1)[k] == v.take(i as int)[k]);
                    }
                }
            },
        }
        i = i + 1;
    }
    assert(v.take(i as int) =~= v);
    let sorted = sort_detections(all);
    Ok(sorted)
}

} // verus!
