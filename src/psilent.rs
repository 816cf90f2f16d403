//! Return-to-origin detection: a swing away from the aim and back to it
//! within three consecutive ticks.
use crate::angle::abs;
use crate::detection::{Detection, DetectorKind, Finding};
use crate::sample::{AngleSample, Entry};
use vstd::prelude::*;

verus! {

/// Smallest change on either axis, in hundredths of a degree, that counts
/// as a movement: 1 degree.
pub const MOVEMENT_FLOOR: i64 = 100;

/// Default largest distance between the first and third sample: 1 degree.
pub const DEFAULT_RETURN_THRESHOLD: u32 = 100;

/// The three samples sit on consecutive ticks, move away by more than the
/// floor, come back within `threshold` of the first sample on both axes,
/// and the way back exceeds the floor.
pub open spec fn window_hit(a: AngleSample, b: AngleSample, c: AngleSample, threshold: u32) -> bool {
    &&& b.tick == a.tick + 1
    &&& c.tick == b.tick + 1
    &&& (abs(b.pitch - a.pitch) > 100 || abs(b.yaw - a.yaw) > 100)
    &&& abs(c.pitch - a.pitch) < threshold
    &&& abs(c.yaw - a.yaw) < threshold
    &&& (abs(c.pitch - b.pitch) > 100 || abs(c.yaw - b.yaw) > 100)
}

/// The detection of a hit window: at the middle tick, with the swing.
pub open spec fn window_detection(player: u64, a: AngleSample, b: AngleSample) -> Detection {
    Detection {
        tick: b.tick,
        detector: DetectorKind::ReturnToOrigin,
        player,
        finding: Finding::ReturnToOrigin {
            shot_pitch: abs(b.pitch - a.pitch) as i64,
            shot_yaw: abs(b.yaw - a.yaw) as i64,
        },
    }
}

/// The detections of every hit window of `s`, in window order.
pub open spec fn return_hits(player: u64, s: Seq<Entry>, threshold: u32) -> Seq<Detection>
    decreases s.len(),
{
    if s.len() < 3 {
        Seq::empty()
    } else {
        let n = s.len();
        return_hits(player, s.drop_last(), threshold) + if window_hit(
            s[n - 3].sample,
            s[n - 2].sample,
            s[n - 1].sample,
            threshold,
        ) {
            seq![window_detection(player, s[n - 3].sample, s[n - 2].sample)]
        } else {
            Seq::empty()
        }
    }
}

fn abs_diff(x: i32, y: i32) -> (r: i64)
    ensures
        r == abs(x - y),
{
    let d = x as i64 - y as i64;
    if d < 0 {
        -d
    } else {
        d
    }
}

/// Tests one window.
pub fn is_return_window(a: &AngleSample, b: &AngleSample, c: &AngleSample, threshold: u32) -> (r: bool)
    ensures
        r == window_hit(*a, *b, *c, threshold),
{
    if b.tick as u64 != a.tick as u64 + 1 || c.tick as u64 != b.tick as u64 + 1 {
        return false;
    }
    let shot = abs_diff(b.pitch, a.pitch) > MOVEMENT_FLOOR || abs_diff(b.yaw, a.yaw) > MOVEMENT_FLOOR;
    let back = abs_diff(c.pitch, a.pitch) < threshold as i64 && abs_diff(c.yaw, a.yaw)
        < threshold as i64;
    let reset = abs_diff(c.pitch, b.pitch) > MOVEMENT_FLOOR || abs_diff(c.yaw, b.yaw)
        > MOVEMENT_FLOOR;
    shot && back && reset
}

/// Scans every window of three successive entries of `player`.
pub fn scan_returns(player: u64, entries: &[Entry], threshold: u32) -> (r: Vec<Detection>)
    ensures
        r@ == return_hits(player, entries@, threshold),
{
    let mut r: Vec<Detection> = Vec::new();
    let n = entries.len();
    if n < 3 {
        assert(entries@.take(n as int) =~= entries@);
        return r;
    }
    assert(return_hits(player, entries@.take(2), threshold) == Seq::<Detection>::empty());
    let mut i: usize = 2;
    while i < n
        invariant
            2 <= i <= n == entries@.len(),
            r@ == return_hits(player, entries@.take(i as int), threshold),
        decreases n - i,
    {
        let a = entries[i - 2].sample;
        let b = entries[i - 1].sample;
        let c = entries[i].sample;
        let ghost t = entries@.take(i + 1);
        assert(t.drop_last() =~= entries@.take(i as int));
        assert(t[i - 2] == entries@[i - 2] && t[i - 1] == entries@[i - 1] && t[i as int]
            == entries@[i as int]);
        if is_return_window(&a, &b, &c, threshold) {
            r.push(
                Detection {
                    tick: b.tick,
                    detector: DetectorKind::ReturnToOrigin,
                    player,
                    finding: Finding::ReturnToOrigin {
                        shot_pitch: abs_diff(b.pitch, a.pitch),
                        shot_yaw: abs_diff(b.yaw, a.yaw),
                    },
                },
            );
            assert(r@ =~= return_hits(player, t, threshold));
        } else {
            assert(r@ =~= return_hits(player, t, threshold));
        }
        i = i + 1;
    }
    assert(entries@.take(n as int) =~= entries@);
    r
}

} // verus!
