use demo_cheat_detect::analyser::{
    Angles, CheatAlgorithm, CheatAnalyser, PacketKind, PlayerState, ReturnToOriginAnalyzer,
    ViewAnglesAnalyzer,
};
use demo_cheat_detect::detection::{sort_detections, Detection, DetectorKind, Finding};
use demo_cheat_detect::oob::{OobConfig, OobDetector};
use demo_cheat_detect::sample::{AngleSample, Position, SampleStore, SequenceError};
use demo_cheat_detect::session::{analyze_session, BatchConfig};

fn sample(tick: u32, pitch: i32, yaw: i32) -> AngleSample {
    AngleSample { tick, pitch, yaw, roll: 0, position: None }
}

fn det(tick: u32, player: u64) -> Detection {
    Detection {
        tick,
        detector: DetectorKind::ReturnToOrigin,
        player,
        finding: Finding::ReturnToOrigin { shot_pitch: 0, shot_yaw: 0 },
    }
}

#[test]
fn sort_is_stable_by_tick() {
    let v = vec![det(5, 1), det(3, 2), det(5, 3), det(1, 4), det(3, 5)];
    let r = sort_detections(v);
    let order: Vec<(u32, u64)> = r.iter().map(|d| (d.tick, d.player)).collect();
    assert_eq!(order, vec![(1, 4), (3, 2), (3, 5), (5, 1), (5, 3)]);
}

#[test]
fn session_detections_ordered_by_tick() {
    let mut store = SampleStore::new();
    // Player 1: a late sustained run; player 2: an early flick and a swing.
    for t in 40..47u32 {
        store.append(1, sample(t, 9500, 0));
    }
    store.append(2, sample(10, 0, 0));
    store.append(2, sample(11, 0, 5000));
    store.append(2, sample(12, 0, 5010));
    store.append(2, sample(13, 0, 5600));
    store.append(2, sample(14, 0, 5000));
    let r = analyze_session(&store, &BatchConfig::defaults()).unwrap();
    assert!(r.windows(2).all(|w| w[0].tick <= w[1].tick));
    assert_eq!(r[0].tick, 11);
    assert_eq!(r[0].detector, DetectorKind::AngleFlick);
    assert!(r.iter().any(|d| d.tick == 13 && d.detector == DetectorKind::ReturnToOrigin));
    let oob: Vec<u32> = r
        .iter()
        .filter(|d| d.detector == DetectorKind::SustainedOutOfBounds)
        .map(|d| d.tick)
        .collect();
    assert_eq!(oob, vec![40, 41, 42, 43, 44, 45, 46]);
    // The flick detector reports the out-of-bounds pitch of each sample after the first.
    let pitch: Vec<u32> = r
        .iter()
        .filter(|d| matches!(d.finding, Finding::OutOfBoundsPitch { .. }))
        .map(|d| d.tick)
        .collect();
    assert_eq!(pitch, vec![41, 42, 43, 44, 45, 46]);
    assert_eq!(r.len(), 1 + 1 + 7 + 6);
}

#[test]
fn session_rejects_decreasing_ticks() {
    let mut store = SampleStore::new();
    store.append(1, sample(20, 0, 0));
    store.append(2, sample(20, 0, 0));
    store.append(2, sample(18, 0, 0));
    assert_eq!(
        analyze_session(&store, &BatchConfig::defaults()),
        Err(SequenceError::OutOfOrder { player: 2, tick: 18, previous: 20 })
    );
}

#[test]
fn session_of_empty_store_is_empty() {
    let store = SampleStore::new();
    assert_eq!(analyze_session(&store, &BatchConfig::defaults()), Ok(vec![]));
}

#[test]
fn store_annotates_deltas() {
    let mut store = SampleStore::new();
    store.append(1, sample(1, 100, 35000));
    store.append(2, sample(1, 0, 0));
    store.append(1, sample(2, 300, 1000));
    store.append(1, sample(2, 300, 1000));
    let s = store.series_for(1);
    assert_eq!(s.len(), 3);
    assert_eq!(s[0].delta, None);
    let d = s[1].delta.unwrap();
    assert_eq!((d.yaw, d.pitch), (2000, 200));
    let d = s[2].delta.unwrap();
    assert_eq!((d.yaw, d.pitch), (0, 0));
    assert!(store.series_for(3).is_empty());
    assert_eq!(store.series().len(), 2);
}

#[test]
fn export_writes_table() {
    let mut store = SampleStore::new();
    store.append(7, AngleSample { tick: 3, pitch: -5, yaw: 12345, roll: 0, position: Some(Position { x: 100, y: -250, z: 7 }) });
    store.append(7, sample(4, 8980, 100));
    store.set_name(7, String::from("A,b"));
    store.append(8, sample(9, 0, 0));
    let text = String::from_utf8(store.export()).unwrap();
    assert_eq!(
        text,
        "tick,player_id,player_name,origin_x,origin_y,origin_z,viewangle,pitchangle,yaw_delta,pitch_delta\n\
         3,7,Ab,1.00,-2.50,0.07,123.45,-0.05,NaN,NaN\n\
         4,7,Ab,0.00,0.00,0.00,1.00,89.80,-122.45,89.85\n\
         9,8,Player 8,0.00,0.00,0.00,0.00,0.00,NaN,NaN\n"
    );
}

#[test]
fn export_twice_is_identical() {
    let mut store = SampleStore::new();
    store.append(1, sample(1, 10, 20));
    store.append(1, sample(2, -10, 35990));
    let a = store.export();
    let b = store.export();
    assert_eq!(a, b);
}

#[test]
fn export_of_empty_store_is_header() {
    let store = SampleStore::new();
    assert_eq!(
        String::from_utf8(store.export()).unwrap(),
        "tick,player_id,player_name,origin_x,origin_y,origin_z,viewangle,pitchangle,yaw_delta,pitch_delta\n"
    );
}

fn player(id: u64, pitch: i32, yaw: i32, name: &str) -> PlayerState {
    PlayerState {
        steamid: id,
        viewangles: Some(Angles { pitch, yaw, roll: 0 }),
        position: None,
        name: String::from(name),
    }
}

fn analyser() -> CheatAnalyser {
    CheatAnalyser::new(vec![
        CheatAlgorithm::ViewAngles(ViewAnglesAnalyzer::new()),
        CheatAlgorithm::ReturnToOrigin(ReturnToOriginAnalyzer::new()),
        CheatAlgorithm::OobPitch(OobDetector::new(OobConfig::defaults())),
    ])
}

#[test]
fn analyser_runs_detectors_tick_by_tick() {
    let mut a = analyser();
    a.init();
    for t in 1..=20u32 {
        let pitch = if t >= 12 { 9500 } else { 0 };
        let yaw = if t == 5 { 6000 } else { 0 };
        a.handle_tick(vec![player(4, pitch, yaw, "four")]);
        assert_eq!(a.get_tick_count_u32(), t);
    }
    let periods = a.finish();
    assert_eq!(periods.len(), 1);
    assert_eq!(periods[0].player, 4);
    assert_eq!(periods[0].periods[0].start_tick, 12);
    assert_eq!(periods[0].periods[0].end_tick, 20);
    let d = a.get_detections();
    let flicks: Vec<u32> = d
        .iter()
        .filter(|x| matches!(x.finding, Finding::SuspiciousAngleChange { .. }))
        .map(|x| x.tick)
        .collect();
    // 5: flick away, 6: flick back, 12: pitch jump.
    assert_eq!(flicks, vec![5, 6, 12]);
    let swings: Vec<u32> = d
        .iter()
        .filter(|x| x.detector == DetectorKind::ReturnToOrigin)
        .map(|x| x.tick)
        .collect();
    assert_eq!(swings, vec![5]);
    assert_eq!(d.iter().filter(|x| x.detector == DetectorKind::SustainedOutOfBounds).count(), 9);
}

#[test]
fn analyser_refuses_earlier_message_tick() {
    let mut a = analyser();
    a.handle_tick(vec![]);
    a.handle_tick(vec![]);
    assert_eq!(
        a.handle_message(vec![], true, 1),
        Err(SequenceError::TickBefore { tick: 1, current: 2 })
    );
    assert_eq!(a.get_tick_count_u32(), 2);
    assert_eq!(a.handle_message(vec![], true, 9), Ok(()));
    assert_eq!(a.get_tick_count_u32(), 9);
}

#[test]
fn analyser_packets() {
    let mut a = analyser();
    a.handle_packet(PacketKind::Tick, vec![player(1, 0, 0, "")]);
    a.handle_packet(PacketKind::Other, vec![player(1, 0, 9000, "")]);
    a.handle_packet(PacketKind::Message { has_messages: false }, vec![player(1, 0, 9000, "")]);
    assert!(a.get_detections().is_empty());
    a.handle_packet(PacketKind::Message { has_messages: true }, vec![player(1, 0, 9000, "")]);
    assert_eq!(a.get_tick_count_u32(), 1);
    assert_eq!(a.get_detections().len(), 1);
    assert_eq!(a.get_detections()[0].detector.name(), "viewangles_analyzer");
    assert_eq!(a.get_detections()[0].finding.tag(), "suspicious_angle_change");
}

#[test]
fn export_extreme_values() {
    let mut store = SampleStore::new();
    store.append(u64::MAX, AngleSample { tick: u32::MAX, pitch: i32::MIN, yaw: i32::MAX, roll: 0, position: Some(Position { x: i32::MIN, y: 0, z: -100 }) });
    let text = String::from_utf8(store.export()).unwrap();
    assert!(text.ends_with(
        "4294967295,18446744073709551615,Player 18446744073709551615,-21474836.48,0.00,-1.00,21474836.47,-21474836.48,NaN,NaN\n"
    ));
}
