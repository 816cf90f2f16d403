use demo_cheat_detect::sample::{AngleSample, Position, SampleStore};
use demo_cheat_detect::session::{analyze_session, BatchConfig};
use demo_cheat_detect::table::{cell, load_rows, parse_table, read_session};

fn chars(s: &str) -> Vec<char> {
    s.chars().collect()
}

#[test]
fn cells_in_hundredths() {
    assert_eq!(cell(&chars("89.80")), Some(Some(8980)));
    assert_eq!(cell(&chars("89.8")), Some(Some(8980)));
    assert_eq!(cell(&chars("-0.05")), Some(Some(-5)));
    assert_eq!(cell(&chars("+12")), Some(Some(1200)));
    assert_eq!(cell(&chars("NaN")), Some(None));
    assert_eq!(cell(&chars("nan")), Some(None));
    assert_eq!(cell(&chars("")), None);
    assert_eq!(cell(&chars("1.234")), None);
    assert_eq!(cell(&chars("1.")), None);
    assert_eq!(cell(&chars(".5")), None);
    assert_eq!(cell(&chars("x")), None);
    assert_eq!(cell(&chars("21474836.47")), Some(Some(i32::MAX)));
    assert_eq!(cell(&chars("-21474836.48")), Some(Some(i32::MIN)));
    assert_eq!(cell(&chars("21474836.48")), None);
}

const HEADER: &str = "tick,player_id,player_name,origin_x,origin_y,origin_z,viewangle,pitchangle,yaw_delta,pitch_delta\n";

#[test]
fn table_rows_and_skipped_count() {
    let text = format!(
        "{}{}{}{}{}",
        HEADER,
        "20,5,Alice,1.00,2.00,3.00,10.00,95.00,NaN,NaN\n",
        "oops,5,Alice,1.00,2.00,3.00,10.00,95.00,NaN,NaN\n",
        "21,5,Alice,1.00,NaN,3.00,10.00,NaN,0.00,0.00\n",
        "22,5,Alice\n"
    );
    let (rows, skipped) = parse_table(text.as_bytes());
    assert_eq!(skipped, 2);
    assert_eq!(rows.len(), 2);
    assert_eq!(rows[0].tick, 20);
    assert_eq!(rows[0].player, 5);
    assert_eq!(rows[0].name, "Alice");
    assert_eq!(rows[0].position, Some(Position { x: 100, y: 200, z: 300 }));
    assert_eq!(rows[0].yaw, Some(1000));
    assert_eq!(rows[0].pitch, Some(9500));
    assert_eq!(rows[1].position, None);
    assert_eq!(rows[1].pitch, None);
    let store = load_rows(&rows);
    assert_eq!(store.series_for(5).len(), 1);
    assert_eq!(store.series()[0].name, "Alice");
}

#[test]
fn export_reads_back() {
    let mut store = SampleStore::new();
    store.set_name(3, String::from("Bob"));
    for t in 20..27u32 {
        store.append(3, AngleSample { tick: t, pitch: 9500, yaw: 100 * t as i32, roll: 0, position: None });
    }
    store.append(4, AngleSample { tick: 1, pitch: -20, yaw: 35999, roll: 0, position: Some(Position { x: -1, y: 0, z: 1 }) });
    let text = store.export();
    let (back, skipped) = read_session(&text);
    assert_eq!(skipped, 0);
    assert_eq!(back.export(), text);
    let cfg = BatchConfig::defaults();
    assert_eq!(analyze_session(&back, &cfg), analyze_session(&store, &cfg));
}
