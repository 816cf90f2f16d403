//! Detections: the typed observations that detectors emit, and their
//! ordering by tick.
use vstd::prelude::*;

verus! {

broadcast use vstd::seq_lib::group_to_multiset_ensures;

/// Which detector produced a detection.
#[derive(Clone, Copy, Debug, PartialEq, Eq, Structural)]
pub enum DetectorKind {
    AngleFlick,
    ReturnToOrigin,
    SustainedOutOfBounds,
}

impl DetectorKind {
    /// The name under which detections of this detector are exported.
    pub fn name(&self) -> (r: &'static str)
        ensures
            r@ == detector_name(*self),
    {
        match self {
            DetectorKind::AngleFlick => "viewangles_analyzer",
            DetectorKind::ReturnToOrigin => "psilent",
            DetectorKind::SustainedOutOfBounds => "oob_pitch",
        }
    }
}

/// The exported name of each detector.
pub open spec fn detector_name(k: DetectorKind) -> Seq<char> {
    match k {
        DetectorKind::AngleFlick => "viewangles_analyzer"@,
        DetectorKind::ReturnToOrigin => "psilent"@,
        DetectorKind::SustainedOutOfBounds => "oob_pitch"@,
    }
}

/// What a detection observed; each variant is one schema of payload.
/// Angles are in hundredths of a degree.
#[derive(Clone, Copy, Debug, PartialEq, Eq, Structural)]
pub enum Finding {
    /// A large single-tick change of view angle.
    SuspiciousAngleChange {
        yaw_delta: i32,
        pitch_delta: i64,
        previous_yaw: i64,
        previous_pitch: i64,
        current_yaw: i32,
        current_pitch: i32,
        /// Floor of the Euclidean norm of the two absolute deltas.
        magnitude: u64,
    },
    /// A pitch beyond the limit of normal play.
    OutOfBoundsPitch { pitch: i32, limit: u32, excess: i64 },
    /// A swing away and back to the original aim within three ticks;
    /// the sizes of the swing on each axis.
    ReturnToOrigin { shot_pitch: i64, shot_yaw: i64 },
    /// One tick of a sustained out-of-bounds period.
    SustainedOutOfBounds { start_tick: u32, end_tick: u32, max_pitch: u32 },
}

impl Finding {
    /// The type tag of this payload.
    pub fn tag(&self) -> (r: &'static str)
        ensures
            r@ == finding_tag(*self),
    {
        match self {
            Finding::SuspiciousAngleChange { .. } => "suspicious_angle_change",
            Finding::OutOfBoundsPitch { .. } => "out_of_bounds_pitch",
            Finding::ReturnToOrigin { .. } => "return_to_origin",
            Finding::SustainedOutOfBounds { .. } => "sustained_out_of_bounds_pitch",
        }
    }
}

/// The type tag of each payload schema.
pub open spec fn finding_tag(f: Finding) -> Seq<char> {
    match f {
        Finding::SuspiciousAngleChange { .. } => "suspicious_angle_change"@,
        Finding::OutOfBoundsPitch { .. } => "out_of_bounds_pitch"@,
        Finding::ReturnToOrigin { .. } => "return_to_origin"@,
        Finding::SustainedOutOfBounds { .. } => "sustained_out_of_bounds_pitch"@,
    }
}

/// One observation: at `tick`, `detector` saw `finding` for `player`.
#[derive(Clone, Copy, Debug, PartialEq, Eq, Structural)]
pub struct Detection {
    pub tick: u32,
    pub detector: DetectorKind,
    pub player: u64,
    pub finding: Finding,
}

/// Ticks never decrease along `s`.
pub open spec fn sorted_by_tick(s: Seq<Detection>) -> bool {
    forall|i: int, j: int| 0 <= i < j < s.len() ==> s[i].tick <= s[j].tick
}

/// Inserts `d` into `s` after every element whose tick is at most `d.tick`
/// counted from the back: into a sorted sequence, after all elements of
/// equal or smaller tick.
pub open spec fn insert_by_tick(s: Seq<Detection>, d: Detection) -> Seq<Detection>
    decreases s.len(),
{
    if s.len() == 0 {
        seq![d]
    } else if s.last().tick <= d.tick {
        s.push(d)
    } else {
        insert_by_tick(s.drop_last(), d).push(s.last())
    }
}

/// The stable sort of `s` by tick: elements of equal tick keep their
/// relative order.
pub open spec fn sort_by_tick(s: Seq<Detection>) -> Seq<Detection>
    decreases s.len(),
{
    if s.len() == 0 {
        s
    } else {
        insert_by_tick(sort_by_tick(s.drop_last()), s.last())
    }
}

/// Number of trailing elements of `s` whose tick exceeds `t`, counting from
/// the back and stopping at the first that does not.
pub open spec fn greater_suffix(s: Seq<Detection>, t: u32) -> nat
    decreases s.len(),
{
    if s.len() == 0 {
        0
    } else if s.last().tick <= t {
        0
    } else {
        greater_suffix(s.drop_last(), t) + 1
    }
}

proof fn lemma_insert_at(s: Seq<Detection>, d: Detection)
    ensures
        greater_suffix(s, d.tick) <= s.len(),
        insert_by_tick(s, d) == s.insert(s.len() - greater_suffix(s, d.tick), d),
    decreases s.len(),
{
    if s.len() > 0 && s.last().tick > d.tick {
        lemma_insert_at(s.drop_last(), d);
        let k = s.len() - greater_suffix(s, d.tick);
        assert(insert_by_tick(s, d) =~= s.insert(k, d));
    } else if s.len() > 0 {
        assert(s.push(d) =~= s.insert(s.len() as int, d));
    }
}

proof fn lemma_insert_sorted(s: Seq<Detection>, d: Detection)
    requires
        sorted_by_tick(s),
    ensures
        sorted_by_tick(insert_by_tick(s, d)),
        insert_by_tick(s, d).len() == s.len() + 1,
        insert_by_tick(s, d).to_multiset() == s.to_multiset().insert(d),
        forall|i: int|
            0 <= i < insert_by_tick(s, d).len() ==> #[trigger] insert_by_tick(s, d)[i] == d
                || s.contains(insert_by_tick(s, d)[i]),
    decreases s.len(),
{
    if s.len() == 0 {
        assert(seq![d] =~= Seq::<Detection>::empty().push(d));
    } else if s.last().tick <= d.tick {
    } else {
        let t = s.drop_last();
        lemma_insert_sorted(t, d);
        let r = insert_by_tick(t, d);
        assert(r.push(s.last()).to_multiset() == r.to_multiset().insert(s.last()));
        assert(s == t.push(s.last()));
        assert(s.to_multiset() == t.to_multiset().insert(s.last()));
        assert(r.to_multiset().insert(s.last()) =~= t.to_multiset().insert(d).insert(s.last()));
        assert(s.to_multiset().insert(d) =~= t.to_multiset().insert(s.last()).insert(d));
        assert forall|i: int| 0 <= i < r.len() implies r[i].tick <= s.last().tick by {
            if r[i] != d {
                assert(t.contains(r[i]));
                let j = choose|j: int| 0 <= j < t.len() && t[j] == r[i];
                assert(s[j] == t[j]);
            }
        }
        assert forall|i: int| 0 <= i < r.len() + 1 implies #[trigger] r.push(s.last())[i] == d
            || s.contains(r.push(s.last())[i]) by {
            if i < r.len() && r[i] != d {
                let j = choose|j: int| 0 <= j < t.len() && t[j] == r[i];
                assert(s[j] == t[j]);
            } else if i == r.len() {
                assert(s[s.len() - 1] == s.last());
            }
        }
    }
}

/// The stable sort by tick orders by tick and rearranges its input: it
/// holds the same detections, each as many times.
pub proof fn lemma_sort_by_tick(s: Seq<Detection>)
    ensures
        sorted_by_tick(sort_by_tick(s)),
        sort_by_tick(s).len() == s.len(),
        sort_by_tick(s).to_multiset() == s.to_multiset(),
    decreases s.len(),
{
    if s.len() > 0 {
        lemma_sort_by_tick(s.drop_last());
        lemma_insert_sorted(sort_by_tick(s.drop_last()), s.last());
        assert(s == s.drop_last().push(s.last()));
    }
}

/// Sorts `v` by tick, stably.
pub fn sort_detections(v: Vec<Detection>) -> (r: Vec<Detection>)
    ensures
        r@ == sort_by_tick(v@),
        sorted_by_tick(r@),
        r@.to_multiset() == v@.to_multiset(),
{
    let mut r: Vec<Detection> = Vec::new();
    let mut i: usize = 0;
    while i < v.len()
        invariant
            i <= v.len(),
            r@ == sort_by_tick(v@.take(i as int)),
        decreases v.len() - i,
    {
        let d = v[i];
        let mut k: usize = r.len();
        assert(r@.take(k as int) =~= r@);
        while k > 0 && r[k - 1].tick > d.tick
            invariant
                k <= r.len(),
                greater_suffix(r@, d.tick) == greater_suffix(r@.take(k as int), d.tick) + (r.len()
                    - k),
            decreases k,
        {
            assert(r@.take(k as int).drop_last() =~= r@.take(k - 1));
            k = k - 1;
        }
        proof {
            if k > 0 {
                assert(r@.take(k as int).last() == r@[k - 1]);
            }
            lemma_insert_at(r@, d);
            assert(v@.take(i + 1).drop_last() =~= v@.take(i as int));
        }
        r.insert(k, d);
        i = i + 1;
    }
    proof {
        assert(v@.take(v.len() as int) =~= v@);
        lemma_sort_by_tick(v@);
    }
    r
}

} // verus!
