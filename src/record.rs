//! The planner's trajectory record, as handed over by an outside parser.
//! Every number is already in fixed point (millionths of the SI unit).
use vstd::prelude::*;

verus! {

/// A constraint of the planner's snapshot; its content is not used here.
#[derive(Clone, Copy, Debug, PartialEq, Eq, Structural)]
pub struct Constraint {}

/// The planner's parameters; their content is not used here.
#[derive(Clone, Copy, Debug, PartialEq, Eq, Structural)]
pub struct Params {}

/// A timed event of the plan; its content is not used here.
#[derive(Clone, Copy, Debug, PartialEq, Eq, Structural)]
pub struct Event {}

/// One planner-emitted row: a timestamp in microseconds, position in
/// micrometers, heading in microradians, linear velocity in micrometers per
/// second and angular velocity in microradians per second.
#[derive(Clone, Copy, Debug, PartialEq, Eq, Structural)]
pub struct Sample {
    pub t: i64,
    pub x: i64,
    pub y: i64,
    pub heading: i64,
    pub velocity_x: i64,
    pub velocity_y: i64,
    pub angular_velocity: i64,
}

/// A waypoint of the planner's snapshot; `split` marks a segment boundary.
#[derive(Clone, Copy, Debug, PartialEq, Eq, Structural)]
pub struct SnapshotWaypoint {
    pub x: i64,
    pub y: i64,
    pub heading: i64,
    pub intervals: u32,
    pub split: bool,
    pub fix_translation: bool,
    pub fix_heading: bool,
    pub override_intervals: bool,
}

/// The planner's input: its waypoints, constraints and time step (in
/// microseconds).
#[derive(Debug)]
pub struct Snapshot {
    pub waypoints: Vec<SnapshotWaypoint>,
    pub constraints: Vec<Constraint>,
    pub target_dt: i64,
}

/// The planner's output: the samples, and one timestamp per snapshot
/// waypoint, by position.
#[derive(Debug)]
pub struct TrajectoryData {
    pub samples: Vec<Sample>,
    pub waypoints: Vec<i64>,
}

/// A whole trajectory file.
#[derive(Debug)]
pub struct ChoreoTrajectory {
    pub name: String,
    pub version: u32,
    pub snapshot: Snapshot,
    pub params: Params,
    pub trajectory: TrajectoryData,
    pub events: Vec<Event>,
}

} // verus!
