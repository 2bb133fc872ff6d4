//! The immutable path store: a time-ordered table of poses, with
//! interpolated lookup.
use vstd::prelude::*;
use crate::pose::{
    lemma_pose_blend_at_start, lemma_pose_blend_close, near_pose_blend, pose_blend, pose_of, Pose,
};
use crate::record::{ChoreoTrajectory, Sample, SnapshotWaypoint, TrajectoryData};
use crate::units::Time;

verus! {

/// Why a path could not be built.
#[derive(Clone, Copy, Debug, PartialEq, Eq, Structural)]
pub enum PathError {
    /// There are no samples.
    EmptyTrajectory,
    /// A split waypoint of the snapshot has no timestamp in the trajectory.
    MissingWaypoint,
    /// A waypoint timestamp is not the timestamp of any sample.
    DanglingWaypoint,
}

/// Strictly increasing, so that each timestamp occurs once.
pub open spec fn strictly_increasing(s: Seq<i64>) -> bool {
    forall|i: int, j: int| 0 <= i < j < s.len() ==> s[i] < s[j]
}

/// The table that ingesting `s` in order yields: one entry per timestamp,
/// the later of two samples with one timestamp overwriting the earlier.
pub open spec fn sample_map(s: Seq<Sample>) -> Map<i64, Pose>
    decreases s.len(),
{
    if s.len() == 0 {
        Map::empty()
    } else {
        sample_map(s.drop_last()).insert(s.last().t, pose_of(s.last()))
    }
}

/// The parallel sequences `times` and `poses` hold exactly the entries of `m`.
pub open spec fn table_models(times: Seq<i64>, poses: Seq<Pose>, m: Map<i64, Pose>) -> bool {
    &&& times.len() == poses.len()
    &&& forall|k: i64| m.dom().contains(k) <==> times.contains(k)
    &&& forall|j: int| 0 <= j < times.len() ==> m[#[trigger] times[j]] == poses[j]
}

/// The snapshot waypoints flagged as split points, each mapped to the
/// trajectory timestamp at its own position.
pub open spec fn split_times(wps: Seq<SnapshotWaypoint>, times: Seq<i64>) -> Seq<i64>
    decreases wps.len(),
{
    if wps.len() == 0 {
        Seq::empty()
    } else if wps.last().split {
        split_times(wps.drop_last(), times).push(times[wps.len() - 1])
    } else {
        split_times(wps.drop_last(), times)
    }
}

/// Some split waypoint has no timestamp at its position.
pub open spec fn missing_split(wps: Seq<SnapshotWaypoint>, times: Seq<i64>) -> bool {
    exists|i: int| 0 <= i < wps.len() && (#[trigger] wps[i]).split && i >= times.len()
}

/// A time-indexed store of poses, built once and read-only afterwards.
pub struct Path {
    times: Vec<i64>,
    poses: Vec<Pose>,
    waypoints: Vec<i64>,
}

impl Path {
    /// The sample timestamps, in increasing order.
    pub closed spec fn times(&self) -> Seq<i64> {
        self.times@
    }

    /// The pose of each sample timestamp, by position.
    pub closed spec fn poses(&self) -> Seq<Pose> {
        self.poses@
    }

    /// The waypoint timestamps, in source order.
    pub closed spec fn waypoint_times(&self) -> Seq<i64> {
        self.waypoints@
    }

    /// The store is non-empty, ordered, and its waypoints are sample times.
    pub open spec fn wf(&self) -> bool {
        &&& self.times().len() == self.poses().len()
        &&& self.times().len() > 0
        &&& strictly_increasing(self.times())
        &&& forall|w: i64| self.waypoint_times().contains(w) ==> self.times().contains(w)
    }

    /// The greatest sample timestamp.
    pub open spec fn last_time(&self) -> i64 {
        self.times().last()
    }

    /// The pose that a query at time `e` gives: the first pose before the
    /// first sample, the last pose from the last sample on, and in between
    /// the blend of the two samples that bracket `e`.
    pub open spec fn pose_at(&self, e: int) -> Pose {
        if e < self.times()[0] {
            self.poses()[0]
        } else if self.last_time() <= e {
            self.poses().last()
        } else {
            let i = choose|i: int|
                0 <= i < self.times().len() - 1 && self.times()[i] <= e < #[trigger] self.times()[i
                    + 1];
            pose_blend(
                self.poses()[i],
                self.poses()[i + 1],
                e - self.times()[i],
                self.times()[i + 1] - self.times()[i],
            )
        }
    }

    /// The store holds exactly the entries of `m`.
    pub open spec fn models(&self, m: Map<i64, Pose>) -> bool {
        table_models(self.times(), self.poses(), m)
    }

    /// What building from `samples` and `wps` gives.
    pub open spec fn built(r: Result<Path, PathError>, samples: Seq<Sample>, wps: Seq<i64>) -> bool {
        if samples.len() == 0 {
            r == Err::<Path, PathError>(PathError::EmptyTrajectory)
        } else if exists|w: i64| wps.contains(w) && !sample_map(samples).dom().contains(w) {
            r == Err::<Path, PathError>(PathError::DanglingWaypoint)
        } else {
            &&& r is Ok
            &&& r->Ok_0.wf()
            &&& r->Ok_0.models(sample_map(samples))
            &&& r->Ok_0.waypoint_times() == wps
        }
    }
}

/// The first position whose timestamp is at least `t`.
fn first_at_least(times: &Vec<i64>, t: i64) -> (r: usize)
    requires
        strictly_increasing(times@),
    ensures
        r <= times.len(),
        forall|j: int| 0 <= j < r ==> times@[j] < t,
        forall|j: int| r <= j < times.len() ==> times@[j] >= t,
{
    let mut lo: usize = 0;
    let mut hi: usize = times.len();
    while lo < hi
        invariant
            lo <= hi <= times.len(),
            strictly_increasing(times@),
            forall|j: int| 0 <= j < lo ==> times@[j] < t,
            forall|j: int| hi <= j < times.len() ==> times@[j] >= t,
        decreases hi - lo,
    {
        let mid: usize = lo + (hi - lo) / 2;
        if times[mid] < t {
            lo = mid + 1;
        } else {
            hi = mid;
        }
    }
    lo
}

/// The first position whose timestamp is greater than `t`.
fn first_after(times: &Vec<i64>, t: i64) -> (r: usize)
    requires
        strictly_increasing(times@),
    ensures
        r <= times.len(),
        forall|j: int| 0 <= j < r ==> times@[j] <= t,
        forall|j: int| r <= j < times.len() ==> times@[j] > t,
{
    let mut lo: usize = 0;
    let mut hi: usize = times.len();
    while lo < hi
        invariant
            lo <= hi <= times.len(),
            strictly_increasing(times@),
            forall|j: int| 0 <= j < lo ==> times@[j] <= t,
            forall|j: int| hi <= j < times.len() ==> times@[j] > t,
        decreases hi - lo,
    {
        let mid: usize = lo + (hi - lo) / 2;
        if times[mid] <= t {
            lo = mid + 1;
        } else {
            hi = mid;
        }
    }
    lo
}

/// Whether `t` is one of the sorted `times`.
fn holds_time(times: &Vec<i64>, t: i64) -> (r: bool)
    requires
        strictly_increasing(times@),
    ensures
        r == times@.contains(t),
{
    let idx = first_at_least(times, t);
    if idx < times.len() && times[idx] == t {
        true
    } else {
        proof {
            if times@.contains(t) {
                let j = choose|j: int| 0 <= j < times@.len() && times@[j] == t;
                assert(j >= idx);
                if j > idx {
                    assert(times@[idx as int] < times@[j]);
                }
            }
        }
        false
    }
}

/// Overwriting the entry at an existing timestamp keeps the table a model.
proof fn lemma_overwrite_models(
    times: Seq<i64>,
    poses: Seq<Pose>,
    m: Map<i64, Pose>,
    idx: int,
    p: Pose,
)
    requires
        table_models(times, poses, m),
        strictly_increasing(times),
        0 <= idx < times.len(),
    ensures
        table_models(times, poses.update(idx, p), m.insert(times[idx], p)),
{
    let m2 = m.insert(times[idx], p);
    assert forall|k: i64| m2.dom().contains(k) <==> times.contains(k) by {
        if k == times[idx] {
            assert(times.contains(k));
        }
    }
    assert forall|j: int| 0 <= j < times.len() implies m2[#[trigger] times[j]] == poses.update(
        idx,
        p,
    )[j] by {
        if j != idx {
            if j < idx {
                assert(times[j] < times[idx]);
            } else {
                assert(times[idx] < times[j]);
            }
        }
    }
}

/// Inserting a new timestamp at its ordered position keeps the table a
/// model and the timestamps ordered.
proof fn lemma_insert_models(
    times: Seq<i64>,
    poses: Seq<Pose>,
    m: Map<i64, Pose>,
    idx: int,
    t: i64,
    p: Pose,
)
    requires
        table_models(times, poses, m),
        strictly_increasing(times),
        0 <= idx <= times.len(),
        forall|j: int| 0 <= j < idx ==> times[j] < t,
        forall|j: int| idx <= j < times.len() ==> times[j] > t,
    ensures
        table_models(times.insert(idx, t), poses.insert(idx, p), m.insert(t, p)),
        strictly_increasing(times.insert(idx, t)),
{
    let t2 = times.insert(idx, t);
    let p2 = poses.insert(idx, p);
    let m2 = m.insert(t, p);
    assert(t2[idx] == t);
    assert forall|k: i64| m2.dom().contains(k) <==> t2.contains(k) by {
        if m2.dom().contains(k) {
            if k == t {
                assert(t2[idx] == k);
            } else {
                assert(times.contains(k));
                let j = choose|j: int| 0 <= j < times.len() && times[j] == k;
                if j < idx {
                    assert(t2[j] == k);
                } else {
                    assert(t2[j + 1] == k);
                }
            }
        }
        if t2.contains(k) {
            let j = choose|j: int| 0 <= j < t2.len() && t2[j] == k;
            if j < idx {
                assert(times[j] == k);
                assert(times.contains(k));
            } else if j > idx {
                assert(times[j - 1] == k);
                assert(times.contains(k));
            }
        }
    }
    assert forall|j: int| 0 <= j < t2.len() implies m2[#[trigger] t2[j]] == p2[j] by {
        if j < idx {
            assert(t2[j] == times[j]);
            assert(m[times[j]] == poses[j]);
        } else if j > idx {
            assert(t2[j] == times[j - 1]);
            assert(m[times[j - 1]] == poses[j - 1]);
        }
    }
    assert forall|a: int, b: int| 0 <= a < b < t2.len() implies t2[a] < t2[b] by {
        if b < idx {
        } else if b == idx {
        } else if a < idx {
            assert(times[b - 1] > t);
        } else if a == idx {
            assert(times[b - 1] > t);
        } else {
            assert(times[a - 1] < times[b - 1]);
        }
    }
}

impl Path {
    /// Builds the store from the samples, later samples overwriting earlier
    /// ones at the same timestamp; fails on an empty list and on a waypoint
    /// that is not a sample timestamp.
    pub fn from_trajectory_data(data: TrajectoryData) -> (r: Result<Path, PathError>)
        ensures
            Path::built(r, data.samples@, data.waypoints@),
    {
        let n = data.samples.len();
        if n == 0 {
            return Err(PathError::EmptyTrajectory);
        }
        let mut times: Vec<i64> = Vec::new();
        let mut poses: Vec<Pose> = Vec::new();
        let mut i: usize = 0;
        while i < n
            invariant
                n == data.samples.len(),
                i <= n,
                strictly_increasing(times@),
                table_models(times@, poses@, sample_map(data.samples@.take(i as int))),
            decreases n - i,
        {
            let s = data.samples[i];
            let pose = Pose::from(s);
            let idx = first_at_least(&times, s.t);
            proof {
                let pre = data.samples@.take(i as int);
                let post = data.samples@.take(i as int + 1);
                assert(post.drop_last() =~= pre);
                assert(post.last() == s);
            }
            if idx < times.len() && times[idx] == s.t {
                proof {
                    lemma_overwrite_models(
                        times@,
                        poses@,
                        sample_map(data.samples@.take(i as int)),
                        idx as int,
                        pose,
                    );
                }
                poses[idx] = pose;
            } else {
                proof {
                    if idx < times.len() {
                        assert(times@[idx as int] > s.t);
                    }
                    lemma_insert_models(
                        times@,
                        poses@,
                        sample_map(data.samples@.take(i as int)),
                        idx as int,
                        s.t,
                        pose,
                    );
                }
                times.insert(idx, s.t);
                poses.insert(idx, pose);
            }
            i += 1;
        }
        proof {
            assert(data.samples@.take(n as int) =~= data.samples@);
            let k = data.samples@.last().t;
            assert(sample_map(data.samples@).dom().contains(k));
            assert(times@.contains(k));
        }
        let mut w: usize = 0;
        while w < data.waypoints.len()
            invariant
                strictly_increasing(times@),
                table_models(times@, poses@, sample_map(data.samples@)),
                w <= data.waypoints.len(),
                data.samples@.len() > 0,
                times@.len() > 0,
                forall|j: int| 0 <= j < w ==> times@.contains(#[trigger] data.waypoints@[j]),
            decreases data.waypoints.len() - w,
        {
            if !holds_time(&times, data.waypoints[w]) {
                proof {
                    let x = data.waypoints@[w as int];
                    assert(data.waypoints@.contains(x));
                    assert(!sample_map(data.samples@).dom().contains(x));
                }
                return Err(PathError::DanglingWaypoint);
            }
            w += 1;
        }
        let path = Path { times, poses, waypoints: data.waypoints };
        proof {
            assert forall|x: i64| path.waypoint_times().contains(x) implies path.times().contains(x) by {
                let j = choose|j: int| 0 <= j < data.waypoints@.len() && data.waypoints@[j] == x;
                assert(times@.contains(data.waypoints@[j]));
            }
        }
        Ok(path)
    }
}

impl Path {
    /// Builds the store from a whole trajectory file: the waypoints are the
    /// trajectory timestamps of the snapshot waypoints flagged as split
    /// points, by position.
    pub fn from_trajectory(choreo: ChoreoTrajectory) -> (r: Result<Path, PathError>)
        ensures
            missing_split(choreo.snapshot.waypoints@, choreo.trajectory.waypoints@) ==> r == Err::<
                Path,
                PathError,
            >(PathError::MissingWaypoint),
            !missing_split(choreo.snapshot.waypoints@, choreo.trajectory.waypoints@) ==> Path::built(
                r,
                choreo.trajectory.samples@,
                split_times(choreo.snapshot.waypoints@, choreo.trajectory.waypoints@),
            ),
    {
        let wps = &choreo.snapshot.waypoints;
        let tw = &choreo.trajectory.waypoints;
        let mut valid: Vec<i64> = Vec::new();
        let mut i: usize = 0;
        while i < wps.len()
            invariant
                i <= wps.len(),
                wps@ == choreo.snapshot.waypoints@,
                tw@ == choreo.trajectory.waypoints@,
                valid@ == split_times(wps@.take(i as int), tw@),
                forall|j: int| 0 <= j < i ==> !((#[trigger] wps@[j]).split && j >= tw@.len()),
            decreases wps.len() - i,
        {
            proof {
                assert(wps@.take(i as int + 1).drop_last() =~= wps@.take(i as int));
            }
            if wps[i].split {
                if i >= tw.len() {
                    proof {
                        assert(wps@[i as int].split);
                        assert(missing_split(wps@, tw@));
                    }
                    return Err(PathError::MissingWaypoint);
                }
                valid.push(tw[i]);
            }
            i += 1;
        }
        proof {
            assert(wps@.take(wps@.len() as int) =~= wps@);
        }
        let data = TrajectoryData { samples: choreo.trajectory.samples, waypoints: valid };
        Path::from_trajectory_data(data)
    }

    /// The pose at `elapsed`, blended between the bracketing samples and
    /// clamped to the first and last samples outside their range.
    pub fn get(&self, elapsed: Time) -> (r: Pose)
        requires
            self.wf(),
        ensures
            r == self.pose_at(elapsed.microseconds as int),
            elapsed.microseconds < self.times()[0] ==> r == self.poses()[0],
            self.last_time() <= elapsed.microseconds ==> r == self.poses().last(),
            forall|i: int|
                0 <= i < self.times().len() - 1 && self.times()[i] <= elapsed.microseconds
                    < #[trigger] self.times()[i + 1] ==> r == pose_blend(
                    self.poses()[i],
                    self.poses()[i + 1],
                    elapsed.microseconds - self.times()[i],
                    self.times()[i + 1] - self.times()[i],
                ),
    {
        let e = elapsed.microseconds;
        if e < self.times[0] {
            return self.poses[0];
        }
        let up = first_after(&self.times, e);
        if up == self.times.len() {
            return self.poses[up - 1];
        }
        let lo = up - 1;
        let num = (e as i128 - self.times[lo] as i128) as u64;
        let den = (self.times[up] as i128 - self.times[lo] as i128) as u64;
        proof {
            let t = self.times@;
            assert(t[lo as int] <= e < t[lo as int + 1]);
            assert forall|i: int| 0 <= i < t.len() - 1 && t[i] <= e < #[trigger] t[i + 1] implies i
                == lo by {
                if i < lo {
                    assert(t[i + 1] <= t[lo as int]);
                }
                if i > lo {
                    assert(t[i] >= t[up as int]);
                }
            }
        }
        self.poses[lo].lerp(&self.poses[up], num, den)
    }

    /// The timestamp of the last sample.
    pub fn length(&self) -> (r: Time)
        requires
            self.wf(),
        ensures
            r.microseconds == self.last_time(),
    {
        Time { microseconds: self.times[self.times.len() - 1] }
    }

    /// The waypoint timestamps, in source order.
    pub fn waypoints(&self) -> (r: &[i64])
        ensures
            r@ == self.waypoint_times(),
    {
        self.waypoints.as_slice()
    }
}

/// The timestamps in the table built from `s` are exactly the sample
/// timestamps.
pub proof fn lemma_sample_map_dom(s: Seq<Sample>)
    ensures
        forall|k: i64|
            sample_map(s).dom().contains(k) <==> exists|j: int|
                0 <= j < s.len() && (#[trigger] s[j]).t == k,
    decreases s.len(),
{
    if s.len() > 0 {
        let init = s.drop_last();
        lemma_sample_map_dom(init);
        assert(sample_map(s) == sample_map(init).insert(s.last().t, pose_of(s.last())));
        assert forall|k: i64|
            sample_map(s).dom().contains(k) <==> exists|j: int|
                0 <= j < s.len() && (#[trigger] s[j]).t == k by {
            if sample_map(s).dom().contains(k) && k != s.last().t {
                let j = choose|j: int| 0 <= j < init.len() && (#[trigger] init[j]).t == k;
                assert(s[j] == init[j]);
            }
            if exists|j: int| 0 <= j < s.len() && (#[trigger] s[j]).t == k {
                let j = choose|j: int| 0 <= j < s.len() && (#[trigger] s[j]).t == k;
                if j < s.len() - 1 {
                    assert(init[j] == s[j]);
                }
            }
        }
    }
}

/// A query at a sample's own timestamp returns that sample's pose exactly.
pub proof fn lemma_query_at_sample(path: &Path, i: int)
    requires
        path.wf(),
        0 <= i < path.times().len(),
    ensures
        path.pose_at(path.times()[i] as int) == path.poses()[i],
{
    let t = path.times();
    let n = t.len();
    if i < n - 1 {
        assert(t[i] < t[n - 1]);
        assert(t[i] >= t[0]) by {
            if i > 0 {
                assert(t[0] < t[i]);
            }
        }
        assert(t[i] < t[i + 1]);
        let k = choose|k: int| 0 <= k < n - 1 && t[k] <= t[i] < #[trigger] t[k + 1];
        if k < i {
            assert(t[k + 1] <= t[i]) by {
                if k + 1 < i {
                    assert(t[k + 1] < t[i]);
                }
            }
        }
        if k > i {
            assert(t[i] < t[k]);
        }
        lemma_pose_blend_at_start(path.poses()[i], path.poses()[i + 1], t[i + 1] - t[i]);
    } else if n > 1 {
        assert(t[0] < t[n - 1]);
    }
}

/// Between two adjacent samples a query returns their blend over the
/// elapsed fraction of the interval, and every field of it lies within one
/// fixed-point unit of the exact affine blend.
pub proof fn lemma_query_between(path: &Path, i: int, e: int)
    requires
        path.wf(),
        0 <= i < path.times().len() - 1,
        path.times()[i] <= e <= path.times()[i + 1],
    ensures
        path.pose_at(e) == pose_blend(
            path.poses()[i],
            path.poses()[i + 1],
            e - path.times()[i],
            path.times()[i + 1] - path.times()[i],
        ),
        near_pose_blend(
            path.pose_at(e),
            path.poses()[i],
            path.poses()[i + 1],
            e - path.times()[i],
            path.times()[i + 1] - path.times()[i],
        ),
{
    let t = path.times();
    let n = t.len();
    let p = path.poses();
    assert(t[i] < t[i + 1]);
    if e == t[i + 1] {
        lemma_query_at_sample(path, i + 1);
        assert(e - t[i] == t[i + 1] - t[i]);
        crate::pose::lemma_pose_blend_at_end(p[i], p[i + 1], t[i + 1] - t[i]);
    } else {
        assert(t[0] <= t[i]) by {
            if i > 0 {
                assert(t[0] < t[i]);
            }
        }
        assert(e < t[n - 1]) by {
            if i + 1 < n - 1 {
                assert(t[i + 1] < t[n - 1]);
            }
        }
        let k = choose|k: int| 0 <= k < n - 1 && t[k] <= e < #[trigger] t[k + 1];
        if k < i {
            assert(t[k + 1] <= t[i]) by {
                if k + 1 < i {
                    assert(t[k + 1] < t[i]);
                }
            }
        }
        if k > i {
            assert(t[i + 1] <= t[k]) by {
                if i + 1 < k {
                    assert(t[i + 1] < t[k]);
                }
            }
        }
    }
    lemma_pose_blend_close(p[i], p[i + 1], e - t[i], t[i + 1] - t[i]);
}

/// Queries before the first sample give the first pose, and queries after
/// the last sample give the last pose, exactly.
pub proof fn lemma_query_clamped(path: &Path, e: int)
    requires
        path.wf(),
    ensures
        e < path.times()[0] ==> path.pose_at(e) == path.poses()[0],
        e > path.last_time() ==> path.pose_at(e) == path.poses().last(),
{
    let t = path.times();
    if e > path.last_time() {
        assert(t[0] <= t[t.len() - 1]) by {
            if t.len() > 1 {
                assert(t[0] < t[t.len() - 1]);
            }
        }
    }
}

/// The length of a path built from `samples` is their greatest timestamp.
pub proof fn lemma_length_is_max(path: &Path, samples: Seq<Sample>)
    requires
        path.wf(),
        path.models(sample_map(samples)),
    ensures
        forall|j: int| 0 <= j < samples.len() ==> (#[trigger] samples[j]).t <= path.last_time(),
        exists|j: int| 0 <= j < samples.len() && (#[trigger] samples[j]).t == path.last_time(),
{
    let t = path.times();
    let n = t.len();
    lemma_sample_map_dom(samples);
    assert(t.contains(t[n - 1]));
    assert(sample_map(samples).dom().contains(t[n - 1]));
    assert forall|j: int| 0 <= j < samples.len() implies (#[trigger] samples[j]).t
        <= path.last_time() by {
        let k = samples[j].t;
        assert(sample_map(samples).dom().contains(k));
        assert(t.contains(k));
        let m = choose|m: int| 0 <= m < n && t[m] == k;
        if m < n - 1 {
            assert(t[m] < t[n - 1]);
        }
    }
}

} // verus!
