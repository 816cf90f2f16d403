//! Angle-flick detection: large single-tick changes of view angle, and
//! pitch beyond the limit of normal play.
use crate::angle::{abs, isqrt};
use crate::detection::{Detection, DetectorKind, Finding};
use crate::sample::{
    appended, delta_in_range, deltas_in_range, entries_of, lemma_appended_entries, next_delta,
    AngleDelta, AngleSample, Entry, SeriesView,
};
use vstd::prelude::*;

verus! {

/// Thresholds, in hundredths of a degree.
#[derive(Clone, Copy, Debug, PartialEq, Eq, Structural)]
pub struct FlickConfig {
    /// A flick has an absolute yaw change above this...
    pub yaw_threshold: u32,
    /// ...or an absolute pitch change above this.
    pub pitch_threshold: u32,
    /// Largest absolute pitch of normal play.
    pub max_pitch: u32,
}

impl FlickConfig {
    /// Defaults when fed tick by tick: 30 and 20 degrees, limit 89.8.
    pub fn streaming_defaults() -> (r: FlickConfig)
        ensures
            r == (FlickConfig { yaw_threshold: 3000, pitch_threshold: 2000, max_pitch: 8980 }),
    {
        FlickConfig { yaw_threshold: 3000, pitch_threshold: 2000, max_pitch: 8980 }
    }

    /// Defaults when replaying a stored series: 45 and 30 degrees, limit
    /// 89.8.
    pub fn batch_defaults() -> (r: FlickConfig)
        ensures
            r == (FlickConfig { yaw_threshold: 4500, pitch_threshold: 3000, max_pitch: 8980 }),
    {
        FlickConfig { yaw_threshold: 4500, pitch_threshold: 3000, max_pitch: 8980 }
    }
}

/// `r` is the floor of the square root of `n`.
pub open spec fn is_floor_sqrt(n: int, r: int) -> bool {
    0 <= r && r * r <= n < (r + 1) * (r + 1)
}

/// The floor of the square root of `n`.
pub open spec fn floor_sqrt(n: nat) -> int {
    choose|r: int| is_floor_sqrt(n as int, r)
}

proof fn lemma_floor_sqrt_unique(n: nat, r: int)
    requires
        is_floor_sqrt(n as int, r),
    ensures
        floor_sqrt(n) == r,
{
    let s = floor_sqrt(n);
    assert(is_floor_sqrt(n as int, s));
    if s < r {
        assert((s + 1) * (s + 1) <= r * r) by (nonlinear_arith)
            requires
                0 <= s < r,
        ;
    } else if s > r {
        assert((r + 1) * (r + 1) <= s * s) by (nonlinear_arith)
            requires
                0 <= r < s,
        ;
    }
}

/// The combined size of a change: the floor of the Euclidean norm of its
/// two components.
pub open spec fn delta_magnitude(d: AngleDelta) -> int {
    floor_sqrt((d.yaw * d.yaw + d.pitch * d.pitch) as nat)
}

/// The flick detection of `sample`, whose change is `d`.
pub open spec fn flick_detection(player: u64, sample: AngleSample, d: AngleDelta) -> Detection {
    Detection {
        tick: sample.tick,
        detector: DetectorKind::AngleFlick,
        player,
        finding: Finding::SuspiciousAngleChange {
            yaw_delta: d.yaw,
            pitch_delta: d.pitch,
            previous_yaw: (sample.yaw - d.yaw) as i64,
            previous_pitch: (sample.pitch - d.pitch) as i64,
            current_yaw: sample.yaw,
            current_pitch: sample.pitch,
            magnitude: delta_magnitude(d) as u64,
        },
    }
}

/// The out-of-bounds detection of `sample`.
pub open spec fn pitch_detection(player: u64, sample: AngleSample, limit: u32) -> Detection {
    Detection {
        tick: sample.tick,
        detector: DetectorKind::AngleFlick,
        player,
        finding: Finding::OutOfBoundsPitch {
            pitch: sample.pitch,
            limit,
            excess: (abs(sample.pitch as int) - limit) as i64,
        },
    }
}

/// What the detector reports for one sample with annotation `delta`:
/// nothing for a first sample; else a flick when either change exceeds its
/// threshold, then an out-of-bounds detection when the pitch exceeds the
/// limit.
pub open spec fn flick_findings(
    cfg: FlickConfig,
    player: u64,
    sample: AngleSample,
    delta: Option<AngleDelta>,
) -> Seq<Detection> {
    match delta {
        None => Seq::empty(),
        Some(d) => (if abs(d.yaw as int) > cfg.yaw_threshold || abs(d.pitch as int)
            > cfg.pitch_threshold {
            seq![flick_detection(player, sample, d)]
        } else {
            Seq::empty()
        }) + (if abs(sample.pitch as int) > cfg.max_pitch {
            seq![pitch_detection(player, sample, cfg.max_pitch)]
        } else {
            Seq::empty()
        }),
    }
}

/// The findings of every entry of `s`, in order.
pub open spec fn series_flicks(cfg: FlickConfig, player: u64, s: Seq<Entry>) -> Seq<Detection>
    decreases s.len(),
{
    if s.len() == 0 {
        Seq::empty()
    } else {
        series_flicks(cfg, player, s.drop_last()) + flick_findings(
            cfg,
            player,
            s.last().sample,
            s.last().delta,
        )
    }
}

fn magnitude(d: &AngleDelta) -> (r: u64)
    ensures
        r == delta_magnitude(*d),
{
    let y: i64 = d.yaw as i64;
    let p: i64 = d.pitch;
    let ya: u128 = if y < 0 {
        (-y) as u128
    } else {
        y as u128
    };
    let pa: u128 = if p < 0 {
        (0 - (p as i128)) as u128
    } else {
        p as u128
    };
    assert(ya * ya + pa * pa == d.yaw * d.yaw + d.pitch * d.pitch) by (nonlinear_arith)
        requires
            ya == abs(d.yaw as int),
            pa == abs(d.pitch as int),
    ;
    assert(ya * ya + pa * pa < 0x1_0000_0000_0000_0000_0000_0000_0000_0000) by (nonlinear_arith)
        requires
            ya <= 0x8000_0000,
            pa <= 0x8000_0000_0000_0000,
    ;
    let n: u128 = ya * ya + pa * pa;
    let r = isqrt(n);
    proof {
        lemma_floor_sqrt_unique(n as nat, r as int);
    }
    r
}

/// Reports one sample with annotation `delta`.
pub fn check_sample(cfg: &FlickConfig, player: u64, sample: &AngleSample, delta: Option<AngleDelta>) -> (r: Vec<Detection>)
    requires
        delta matches Some(d) ==> delta_in_range(d),
    ensures
        r@ == flick_findings(*cfg, player, *sample, delta),
{
    let mut r: Vec<Detection> = Vec::new();
    if let Some(d) = delta {
        let yaw_abs: i64 = if d.yaw < 0 {
            -(d.yaw as i64)
        } else {
            d.yaw as i64
        };
        let pitch_abs: i64 = if d.pitch < 0 {
            -d.pitch
        } else {
            d.pitch
        };
        if yaw_abs > cfg.yaw_threshold as i64 || pitch_abs > cfg.pitch_threshold as i64 {
            r.push(
                Detection {
                    tick: sample.tick,
                    detector: DetectorKind::AngleFlick,
                    player,
                    finding: Finding::SuspiciousAngleChange {
                        yaw_delta: d.yaw,
                        pitch_delta: d.pitch,
                        previous_yaw: sample.yaw as i64 - d.yaw as i64,
                        previous_pitch: sample.pitch as i64 - d.pitch,
                        current_yaw: sample.yaw,
                        current_pitch: sample.pitch,
                        magnitude: magnitude(&d),
                    },
                },
            );
        }
        let ghost first = r@;
        let pa: i64 = if sample.pitch < 0 {
            -(sample.pitch as i64)
        } else {
            sample.pitch as i64
        };
        if pa > cfg.max_pitch as i64 {
            r.push(
                Detection {
                    tick: sample.tick,
                    detector: DetectorKind::AngleFlick,
                    player,
                    finding: Finding::OutOfBoundsPitch {
                        pitch: sample.pitch,
                        limit: cfg.max_pitch,
                        excess: pa - cfg.max_pitch as i64,
                    },
                },
            );
            assert(r@ =~= first + seq![pitch_detection(player, *sample, cfg.max_pitch)]);
        } else {
            assert(r@ =~= first + Seq::<Detection>::empty());
        }
        assert(r@ =~= flick_findings(*cfg, player, *sample, delta));
    } else {
        assert(r@ =~= flick_findings(*cfg, player, *sample, delta));
    }
    r
}

/// Replays a stored series of `player` through the detector.
pub fn scan_flicks(cfg: &FlickConfig, player: u64, entries: &[Entry]) -> (r: Vec<Detection>)
    requires
        deltas_in_range(entries@),
    ensures
        r@ == series_flicks(*cfg, player, entries@),
{
    let mut r: Vec<Detection> = Vec::new();
    let mut i: usize = 0;
    while i < entries.len()
        invariant
            i <= entries@.len(),
            deltas_in_range(entries@),
            r@ == series_flicks(*cfg, player, entries@.take(i as int)),
        decreases entries.len() - i,
    {
        let e = entries[i];
        let found = check_sample(cfg, player, &e.sample, e.delta);
        let ghost before = r@;
        let mut j: usize = 0;
        while j < found.len()
            invariant
                j <= found@.len(),
                r@ == before + found@.take(j as int),
            decreases found.len() - j,
        {
            r.push(found[j]);
            assert(r@ =~= before + found@.take(j + 1));
            j = j + 1;
        }
        assert(found@.take(j as int) =~= found@);
        assert(entries@.take(i + 1).drop_last() =~= entries@.take(i as int));
        i = i + 1;
    }
    assert(entries@.take(i as int) =~= entries@);
    r
}

/// Streaming and batch runs agree: what the detector reports for a sample
/// as it arrives is exactly what replaying the player's stored series gains
/// from that sample's entry.
pub proof fn lemma_streaming_matches_batch(
    cfg: FlickConfig,
    s: Seq<SeriesView>,
    player: u64,
    sample: AngleSample,
)
    ensures
        series_flicks(cfg, player, entries_of(appended(s, player, sample), player)) == series_flicks(
            cfg,
            player,
            entries_of(s, player),
        ) + flick_findings(cfg, player, sample, next_delta(entries_of(s, player), sample)),
{
    let old_entries = entries_of(s, player);
    let e = Entry { sample, delta: next_delta(old_entries, sample) };
    lemma_appended_entries(s, player, sample);
    assert(old_entries.push(e).drop_last() =~= old_entries);
}

} // verus!
