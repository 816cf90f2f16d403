use demo_cheat_detect::analyser::{
    Angles, CheatAlgorithm, CheatAnalyserState, PlayerState, ReturnToOriginAnalyzer,
    ViewAnglesAnalyzer,
};
use demo_cheat_detect::detection::{Detection, DetectorKind, Finding};
use demo_cheat_detect::flick::{check_sample, scan_flicks, FlickConfig};
use demo_cheat_detect::oob::{scan_series, step_machine, Machine, OobConfig, OobDetector, ViolationPeriod};
use demo_cheat_detect::psilent::{is_return_window, scan_returns};
use demo_cheat_detect::sample::{AngleDelta, AngleSample, Entry, SampleStore, SequenceError};

fn sample(tick: u32, pitch: i32, yaw: i32) -> AngleSample {
    AngleSample { tick, pitch, yaw, roll: 0, position: None }
}

fn series(points: &[(u32, i32, i32)]) -> Vec<Entry> {
    let mut store = SampleStore::new();
    for &(t, p, y) in points {
        store.append(7, sample(t, p, y));
    }
    store.series_for(7).to_vec()
}

fn player(id: u64, pitch: i32, yaw: i32) -> PlayerState {
    PlayerState {
        steamid: id,
        viewangles: Some(Angles { pitch, yaw, roll: 0 }),
        position: None,
        name: String::new(),
    }
}

#[test]
fn streaming_flick_after_baseline() {
    let mut alg = CheatAlgorithm::ViewAngles(ViewAnglesAnalyzer::new());
    let first = alg.on_tick(&CheatAnalyserState { tick: 1, player_states: vec![player(5, 0, 0)] });
    assert!(first.is_empty());
    let second = alg.on_tick(&CheatAnalyserState { tick: 2, player_states: vec![player(5, 0, 4000)] });
    assert_eq!(second.len(), 1);
    assert_eq!(second[0].tick, 2);
    assert_eq!(second[0].player, 5);
    assert_eq!(second[0].detector, DetectorKind::AngleFlick);
    match second[0].finding {
        Finding::SuspiciousAngleChange { yaw_delta, pitch_delta, magnitude, previous_yaw, .. } => {
            assert_eq!(yaw_delta, 4000);
            assert_eq!(pitch_delta, 0);
            assert_eq!(magnitude, 4000);
            assert_eq!(previous_yaw, 0);
        }
        other => panic!("unexpected finding {:?}", other),
    }
    assert!(second.iter().all(|d| !matches!(d.finding, Finding::OutOfBoundsPitch { .. })));
}

#[test]
fn streaming_flick_below_threshold_reports_nothing() {
    let mut alg = CheatAlgorithm::ViewAngles(ViewAnglesAnalyzer::new());
    alg.on_tick(&CheatAnalyserState { tick: 1, player_states: vec![player(5, 0, 0)] });
    let r = alg.on_tick(&CheatAnalyserState { tick: 2, player_states: vec![player(5, 1999, 3000)] });
    assert!(r.is_empty());
}

#[test]
fn flick_magnitude_combines_both_axes() {
    let cfg = FlickConfig::streaming_defaults();
    let r = check_sample(&cfg, 1, &sample(3, 3000, 4000), Some(AngleDelta { yaw: 4000, pitch: 3000 }));
    assert_eq!(r.len(), 1);
    match r[0].finding {
        Finding::SuspiciousAngleChange { magnitude, previous_pitch, previous_yaw, current_pitch, current_yaw, .. } => {
            assert_eq!(magnitude, 5000);
            assert_eq!(previous_pitch, 0);
            assert_eq!(previous_yaw, 0);
            assert_eq!(current_pitch, 3000);
            assert_eq!(current_yaw, 4000);
        }
        other => panic!("unexpected finding {:?}", other),
    }
}

#[test]
fn out_of_bounds_pitch_reported_with_excess() {
    let cfg = FlickConfig::streaming_defaults();
    let r = check_sample(&cfg, 1, &sample(3, -9000, 0), Some(AngleDelta { yaw: 0, pitch: -10 }));
    assert_eq!(
        r,
        vec![Detection {
            tick: 3,
            detector: DetectorKind::AngleFlick,
            player: 1,
            finding: Finding::OutOfBoundsPitch { pitch: -9000, limit: 8980, excess: 20 },
        }]
    );
}

#[test]
fn first_sample_reports_nothing_even_out_of_bounds() {
    let cfg = FlickConfig::streaming_defaults();
    assert!(check_sample(&cfg, 1, &sample(3, 9500, 0), None).is_empty());
}

#[test]
fn batch_flick_uses_batch_thresholds() {
    let entries = series(&[(1, 0, 0), (2, 0, 4000), (3, 0, 9000)]);
    let r = scan_flicks(&FlickConfig::batch_defaults(), 7, &entries);
    assert_eq!(r.len(), 1);
    assert_eq!(r[0].tick, 3);
    let s = scan_flicks(&FlickConfig::streaming_defaults(), 7, &entries);
    assert_eq!(s.len(), 2);
}

#[test]
fn flick_yaw_wraps_around() {
    let entries = series(&[(1, 0, 35900), (2, 0, 100)]);
    assert!(scan_flicks(&FlickConfig::streaming_defaults(), 7, &entries).is_empty());
}

fn oob_ticks(points: &[(u32, i32)]) -> Vec<Entry> {
    let pts: Vec<(u32, i32, i32)> = points.iter().map(|&(t, p)| (t, p, 0)).collect();
    series(&pts)
}

#[test]
fn oob_sustained_run_reported() {
    let entries = oob_ticks(&[(20, 9500), (21, 9500), (22, 9500), (23, 9500), (24, 9500), (25, 9500)]);
    let (periods, dets) = scan_series(&OobConfig::defaults(), 7, &entries).unwrap();
    assert_eq!(periods, vec![ViolationPeriod { start_tick: 20, end_tick: 25, max_pitch: 9500 }]);
    assert_eq!(dets.len(), 6);
    for (k, d) in dets.iter().enumerate() {
        assert_eq!(d.tick, 20 + k as u32);
        assert_eq!(d.detector, DetectorKind::SustainedOutOfBounds);
        assert_eq!(
            d.finding,
            Finding::SustainedOutOfBounds { start_tick: 20, end_tick: 25, max_pitch: 9500 }
        );
    }
}

#[test]
fn oob_five_tick_run_spans_four() {
    // end_tick - start_tick is 4 here, below the minimum duration of 5.
    let entries = oob_ticks(&[(20, 9500), (21, 9500), (22, 9500), (23, 9500), (24, 9500)]);
    let (periods, dets) = scan_series(&OobConfig::defaults(), 7, &entries).unwrap();
    assert!(periods.is_empty());
    assert!(dets.is_empty());
}

#[test]
fn oob_short_run_discarded() {
    let entries = oob_ticks(&[(20, 9500), (21, 9500), (22, 9500)]);
    let (periods, dets) = scan_series(&OobConfig::defaults(), 7, &entries).unwrap();
    assert!(periods.is_empty());
    assert!(dets.is_empty());
}

#[test]
fn oob_closed_by_normal_sample_ends_at_last_violation() {
    let entries = oob_ticks(&[
        (20, -9500), (21, 9600), (22, 9500), (23, 9500), (24, 9500), (25, 9700), (26, 0), (27, 9500),
    ]);
    let (periods, dets) = scan_series(&OobConfig::defaults(), 7, &entries).unwrap();
    assert_eq!(periods, vec![ViolationPeriod { start_tick: 20, end_tick: 25, max_pitch: 9700 }]);
    assert_eq!(dets.len(), 6);
}

#[test]
fn oob_ignores_initial_ticks() {
    let entries = oob_ticks(&[(4, 9500), (5, 9500), (6, 9500), (7, 9500), (8, 9500), (9, 9500)]);
    let (periods, _) = scan_series(&OobConfig::defaults(), 7, &entries).unwrap();
    assert!(periods.is_empty());
}

#[test]
fn oob_gap_of_one_missing_tick_continues_run() {
    let cfg = OobConfig::defaults();
    let idle = Machine { last_tick: None, run: None };
    let (m, _) = step_machine(&cfg, idle, 20, 9500);
    let (m, _) = step_machine(&cfg, m, 21, 9500);
    let (m, closed) = step_machine(&cfg, m, 23, 9500);
    assert_eq!(closed, None);
    let run = m.run.unwrap();
    assert_eq!((run.start_tick, run.last_tick, run.count), (20, 23, 3));
}

#[test]
fn oob_two_missing_ticks_start_a_new_run() {
    // From 21 to 24 the tick difference is 3, above the largest gap of 2.
    let cfg = OobConfig::defaults();
    let idle = Machine { last_tick: None, run: None };
    let (m, _) = step_machine(&cfg, idle, 20, 9500);
    let (m, _) = step_machine(&cfg, m, 21, 9500);
    let (m, closed) = step_machine(&cfg, m, 24, 9500);
    assert_eq!(closed, None);
    let run = m.run.unwrap();
    assert_eq!((run.start_tick, run.last_tick, run.count), (24, 24, 1));
}

#[test]
fn oob_gap_closes_and_reports_long_run() {
    let entries = oob_ticks(&[
        (20, 9500), (21, 9500), (22, 9500), (23, 9500), (24, 9500), (25, 9500), (29, 9500),
    ]);
    let (periods, dets) = scan_series(&OobConfig::defaults(), 7, &entries).unwrap();
    assert_eq!(periods, vec![ViolationPeriod { start_tick: 20, end_tick: 25, max_pitch: 9500 }]);
    assert_eq!(dets.len(), 6);
}

#[test]
fn oob_rejects_decreasing_ticks() {
    let entries = oob_ticks(&[(20, 9500), (19, 9500)]);
    assert_eq!(
        scan_series(&OobConfig::defaults(), 7, &entries).err(),
        Some(SequenceError::OutOfOrder { player: 7, tick: 19, previous: 20 })
    );
}

#[test]
fn oob_streaming_matches_batch() {
    let mut d = OobDetector::new(OobConfig::defaults());
    let mut all = Vec::new();
    for t in 20..26u32 {
        all.extend(d.observe(3, t, 9500).unwrap());
        all.extend(d.observe(4, t, 100).unwrap());
    }
    all.extend(d.observe(3, 26, 0).unwrap());
    assert_eq!(all.len(), 6);
    let report = d.finish();
    assert!(report.detections.is_empty());
    assert_eq!(report.players.len(), 1);
    assert_eq!(report.players[0].player, 3);
    assert_eq!(report.players[0].periods, vec![ViolationPeriod { start_tick: 20, end_tick: 25, max_pitch: 9500 }]);
}

#[test]
fn oob_streaming_refuses_earlier_tick() {
    let mut d = OobDetector::new(OobConfig::defaults());
    d.observe(3, 30, 9500).unwrap();
    assert_eq!(d.observe(3, 29, 9500), Err(SequenceError::OutOfOrder { player: 3, tick: 29, previous: 30 }));
}

#[test]
fn oob_finish_closes_open_run() {
    let mut d = OobDetector::new(OobConfig::defaults());
    for t in 40..46u32 {
        assert!(d.observe(9, t, -9000).unwrap().is_empty());
    }
    let report = d.finish();
    assert_eq!(report.detections.len(), 6);
    assert_eq!(report.players[0].periods, vec![ViolationPeriod { start_tick: 40, end_tick: 45, max_pitch: 9000 }]);
}

#[test]
fn psilent_swing_and_return() {
    let entries = series(&[(5, 0, 0), (6, 500, 1000), (7, 20, 30)]);
    let r = scan_returns(7, &entries, 100);
    assert_eq!(
        r,
        vec![Detection {
            tick: 6,
            detector: DetectorKind::ReturnToOrigin,
            player: 7,
            finding: Finding::ReturnToOrigin { shot_pitch: 500, shot_yaw: 1000 },
        }]
    );
}

#[test]
fn psilent_no_return() {
    let entries = series(&[(5, 0, 0), (6, 500, 1000), (7, 1000, 30)]);
    assert!(scan_returns(7, &entries, 100).is_empty());
}

#[test]
fn psilent_gap_skips_window() {
    let entries = series(&[(5, 0, 0), (6, 500, 1000), (8, 20, 30)]);
    assert!(scan_returns(7, &entries, 100).is_empty());
}

#[test]
fn psilent_window_test() {
    assert!(is_return_window(&sample(1, 0, 0), &sample(2, 0, 101), &sample(3, 0, 0), 100));
    assert!(!is_return_window(&sample(1, 0, 0), &sample(2, 0, 100), &sample(3, 0, 0), 100));
    assert!(!is_return_window(&sample(1, 0, 0), &sample(2, 0, 500), &sample(3, 0, 100), 100));
}

#[test]
fn psilent_adjacent_excursions() {
    let entries = series(&[(1, 0, 0), (2, 0, 500), (3, 0, 0), (4, 0, 500), (5, 0, 0)]);
    let r = scan_returns(7, &entries, 100);
    let ticks: Vec<u32> = r.iter().map(|d| d.tick).collect();
    assert_eq!(ticks, vec![2, 3, 4]);
}

#[test]
fn return_to_origin_analyzer_reports_at_finish() {
    let mut alg = CheatAlgorithm::ReturnToOrigin(ReturnToOriginAnalyzer::new());
    for (t, p, y) in [(5u32, 0, 0), (6, 500, 1000), (7, 20, 30)] {
        assert!(alg.on_tick(&CheatAnalyserState { tick: t, player_states: vec![player(2, p, y)] }).is_empty());
    }
    let (dets, periods) = alg.finish();
    assert_eq!(dets.len(), 1);
    assert_eq!(dets[0].tick, 6);
    assert!(periods.is_empty());
    assert_eq!(alg.algorithm_name(), "psilent");
}

#[test]
fn oob_run_at_the_last_ticks() {
    let start = u32::MAX - 5;
    let pts: Vec<(u32, i32)> = (start..=u32::MAX).map(|t| (t, i32::MIN)).collect();
    let entries = oob_ticks(&pts);
    let (periods, dets) = scan_series(&OobConfig::defaults(), 7, &entries).unwrap();
    assert_eq!(periods, vec![ViolationPeriod { start_tick: start, end_tick: u32::MAX, max_pitch: 1u32 << 31 }]);
    assert_eq!(dets.len(), 6);
    assert_eq!(dets[5].tick, u32::MAX);
}

#[test]
fn flick_extreme_pitch_change() {
    let entries = series(&[(1, i32::MIN, 0), (2, i32::MAX, 0)]);
    let r = scan_flicks(&FlickConfig::batch_defaults(), 7, &entries);
    assert_eq!(r.len(), 2);
    match r[0].finding {
        Finding::SuspiciousAngleChange { pitch_delta, magnitude, previous_pitch, .. } => {
            assert_eq!(pitch_delta, u32::MAX as i64);
            assert_eq!(magnitude, u32::MAX as u64);
            assert_eq!(previous_pitch, i32::MIN as i64);
        }
        other => panic!("unexpected finding {:?}", other),
    }
}
