use choreo_path::path::{Path, PathError};
use choreo_path::pose::Pose;
use choreo_path::record::{
    ChoreoTrajectory, Constraint, Event, Params, Sample, Snapshot, SnapshotWaypoint,
    TrajectoryData,
};
use choreo_path::units::{
    blend_i64, Angle, AngularVelocity, Length, Time, Velocity, HALF_TURN, SCALE,
};

fn sample(t: i64, x: i64, y: i64, heading: i64) -> Sample {
    Sample { t, x, y, heading, velocity_x: 0, velocity_y: 0, angular_velocity: 0 }
}

fn full_sample(t: i64, v: i64) -> Sample {
    Sample {
        t,
        x: v,
        y: 2 * v,
        heading: 3 * v,
        velocity_x: 4 * v,
        velocity_y: 5 * v,
        angular_velocity: 6 * v,
    }
}

fn waypoint(split: bool) -> SnapshotWaypoint {
    SnapshotWaypoint {
        x: 0,
        y: 0,
        heading: 0,
        intervals: 10,
        split,
        fix_translation: true,
        fix_heading: true,
        override_intervals: false,
    }
}

fn choreo(samples: Vec<Sample>, flags: Vec<bool>, times: Vec<i64>) -> ChoreoTrajectory {
    ChoreoTrajectory {
        name: String::from("Blue2"),
        version: 1,
        snapshot: Snapshot {
            waypoints: flags.into_iter().map(waypoint).collect(),
            constraints: vec![Constraint {}],
            target_dt: 50_000,
        },
        params: Params {},
        trajectory: TrajectoryData { samples, waypoints: times },
        events: vec![Event {}],
    }
}

fn build(samples: Vec<Sample>) -> Path {
    Path::from_trajectory_data(TrajectoryData { samples, waypoints: vec![] }).unwrap()
}

fn at(path: &Path, microseconds: i64) -> Pose {
    path.get(Time { microseconds })
}

#[test]
fn parse() {
    let samples = vec![sample(0, 0, 0, 0), sample(500_000, 1, 1, 1), sample(1_000_000, 2, 2, 2)];
    let data = choreo(samples, vec![true, false, true], vec![0, 500_000, 1_000_000]);
    let path = Path::from_trajectory(data).unwrap();
    for i in path.waypoints() {
        println!("{}", i);
    }
    assert_eq!(path.waypoints(), &[0, 1_000_000][..]);
}

#[test]
fn mirror_test() {
    let data = choreo(vec![sample(0, 8_011_920, 7_606_160, 0)], vec![true], vec![0]);
    let path = Path::from_trajectory(data).unwrap();
    let setpoint = path.get(Time { microseconds: 0 });

    println!("{:?}", setpoint);

    let setpoint =
        setpoint.mirror(Length { micrometers: 17_550_000 / 2 }, Length { micrometers: 8_050_000 / 2 });

    assert_eq!(setpoint.x.micrometers, 9_538_080);
    assert_eq!(setpoint.y.micrometers, 443_840);
    assert_eq!(setpoint.heading.microradians, HALF_TURN);
}

#[test]
fn two_samples_interpolate_and_clamp() {
    let path = build(vec![sample(0, 0, 0, 0), sample(SCALE, 2 * SCALE, 0, 0)]);
    let mid = at(&path, SCALE / 2);
    assert_eq!(mid.x.micrometers, SCALE);
    assert_eq!(mid.y.micrometers, 0);
    assert_eq!(at(&path, 2 * SCALE).x.micrometers, 2 * SCALE);
    assert_eq!(at(&path, -SCALE).x.micrometers, 0);
}

#[test]
fn mirror_half_field() {
    let p = Pose::from(sample(0, 8_021_920, 0, 0));
    let m = p.mirror(Length { micrometers: 8_775_000 }, Length { micrometers: 0 });
    assert_eq!(m.x.micrometers, 9_528_080);
}

#[test]
fn query_at_each_sample_is_exact() {
    let samples: Vec<Sample> =
        vec![full_sample(0, 7), full_sample(300, -11), full_sample(1_000, 13), full_sample(1_001, 0)];
    let path = build(samples.clone());
    for s in samples {
        assert_eq!(at(&path, s.t), Pose::from(s));
    }
}

#[test]
fn query_between_samples_blends_every_field() {
    let path = build(vec![full_sample(1_000, 100), full_sample(4_000, 400)]);
    let p = at(&path, 2_000);
    assert_eq!(p.x.micrometers, 200);
    assert_eq!(p.y.micrometers, 400);
    assert_eq!(p.heading.microradians, 600);
    assert_eq!(p.velocity_x.micrometers_per_second, 800);
    assert_eq!(p.velocity_y.micrometers_per_second, 1_000);
    assert_eq!(p.angular_velocity.microradians_per_second, 1_200);
}

#[test]
fn blend_rounds_toward_the_start() {
    assert_eq!(blend_i64(0, 10, 1, 3), 3);
    assert_eq!(blend_i64(10, 0, 1, 3), 7);
    assert_eq!(blend_i64(-5, 5, 1, 2), 0);
    assert_eq!(blend_i64(i64::MIN, i64::MAX, u64::MAX, u64::MAX), i64::MAX);
    assert_eq!(blend_i64(i64::MAX, i64::MIN, 0, u64::MAX), i64::MAX);
}

#[test]
fn queries_outside_range_clamp() {
    let path = build(vec![full_sample(10, 1), full_sample(20, 2), full_sample(30, 3)]);
    assert_eq!(at(&path, 0), Pose::from(full_sample(10, 1)));
    assert_eq!(at(&path, i64::MIN), Pose::from(full_sample(10, 1)));
    assert_eq!(at(&path, 31), Pose::from(full_sample(30, 3)));
    assert_eq!(at(&path, i64::MAX), Pose::from(full_sample(30, 3)));
}

#[test]
fn repeated_queries_agree() {
    let path = build(vec![full_sample(0, 1), full_sample(7, 50)]);
    let a = at(&path, 3);
    let b = at(&path, 3);
    assert_eq!(a, b);
}

#[test]
fn length_is_greatest_timestamp() {
    let path = build(vec![full_sample(500, 1), full_sample(2_500, 2), full_sample(100, 3)]);
    assert_eq!(path.length(), Time { microseconds: 2_500 });
}

#[test]
fn unordered_samples_are_sorted_by_time() {
    let path = build(vec![full_sample(20, 2), full_sample(0, 0), full_sample(10, 1)]);
    assert_eq!(at(&path, 5).x.micrometers, 0);
    assert_eq!(at(&path, 15).x.micrometers, 1);
    assert_eq!(at(&path, 10), Pose::from(full_sample(10, 1)));
}

#[test]
fn mirror_twice_restores_position() {
    let p = Pose {
        x: Length { micrometers: 1_234_567 },
        y: Length { micrometers: -42 },
        heading: Angle { microradians: 500_000 },
        angular_velocity: AngularVelocity { microradians_per_second: -9 },
        velocity_x: Velocity { micrometers_per_second: 3 },
        velocity_y: Velocity { micrometers_per_second: 4 },
    };
    let rx = Length { micrometers: 8_775_000 };
    let ry = Length { micrometers: 4_025_000 };
    let once = p.mirror(rx, ry);
    assert_eq!(once.angular_velocity.microradians_per_second, 9);
    assert_eq!(once.velocity_x, p.velocity_x);
    let twice = once.mirror(rx, ry);
    assert_eq!(twice.x, p.x);
    assert_eq!(twice.y, p.y);
    assert_eq!(twice.heading.microradians, p.heading.microradians + 2 * HALF_TURN);
    assert_eq!(twice.angular_velocity, p.angular_velocity);
}

#[test]
fn later_duplicate_overwrites() {
    let path = build(vec![sample(0, 1, 0, 0), sample(0, 5, 0, 0), sample(10, 9, 0, 0)]);
    assert_eq!(at(&path, 0).x.micrometers, 5);
    assert_eq!(at(&path, 5).x.micrometers, 7);
}

#[test]
fn empty_trajectory_is_refused() {
    let r = Path::from_trajectory_data(TrajectoryData { samples: vec![], waypoints: vec![] });
    assert!(matches!(r, Err(PathError::EmptyTrajectory)));
    let r = Path::from_trajectory(choreo(vec![], vec![], vec![]));
    assert!(matches!(r, Err(PathError::EmptyTrajectory)));
}

#[test]
fn dangling_waypoint_is_refused() {
    let r = Path::from_trajectory_data(TrajectoryData {
        samples: vec![sample(0, 0, 0, 0), sample(10, 0, 0, 0)],
        waypoints: vec![0, 5],
    });
    assert!(matches!(r, Err(PathError::DanglingWaypoint)));
}

#[test]
fn missing_split_waypoint_is_refused() {
    let r = Path::from_trajectory(choreo(vec![sample(0, 0, 0, 0)], vec![false, true], vec![0]));
    assert!(matches!(r, Err(PathError::MissingWaypoint)));
    let ok = Path::from_trajectory(choreo(vec![sample(0, 0, 0, 0)], vec![true, false], vec![0]));
    assert_eq!(ok.unwrap().waypoints(), &[0][..]);
}

#[test]
fn sample_into_pose_keeps_units() {
    let p = Pose::from(Sample {
        t: 1,
        x: 2,
        y: 3,
        heading: 4,
        velocity_x: 5,
        velocity_y: 6,
        angular_velocity: 7,
    });
    assert_eq!(p.x.micrometers, 2);
    assert_eq!(p.y.micrometers, 3);
    assert_eq!(p.heading.microradians, 4);
    assert_eq!(p.velocity_x.micrometers_per_second, 5);
    assert_eq!(p.velocity_y.micrometers_per_second, 6);
    assert_eq!(p.angular_velocity.microradians_per_second, 7);
}
