use steering::neighbours::{
    boid_neighbours, is_in_boid_neighbourhood, nearest_approach_time, steer_for_alignment,
    steer_for_cohesion, steer_for_separation, steer_to_avoid_close_neighbours,
    steer_to_avoid_neighbours,
};
use steering::VehicleBase;
use std::cell::Cell;
use steering::{AnnotationBase, LocalSpace, SimpleVehicle, Vec3};

struct Quiet;

impl AnnotationBase for Quiet {
    fn is_enabled(&self) -> bool {
        false
    }
    fn enable(&self, _enabled: bool) {}
    fn line(&self, _start: Vec3, _end: Vec3, _color: Vec3, _opacity: i64) {}
    fn circle_xz(&self, _radius: i64, _center: Vec3, _color: Vec3, _opacity: i64, _segments: i32) {}
    fn disk_xz(&self, _radius: i64, _center: Vec3, _color: Vec3, _opacity: i64, _segments: i32) {}
    fn circle_3d(
        &self,
        _radius: i64,
        _center: Vec3,
        _axis: Vec3,
        _color: Vec3,
        _opacity: i64,
        _segments: i32,
    ) {
    }
    fn disk_3d(
        &self,
        _radius: i64,
        _center: Vec3,
        _axis: Vec3,
        _color: Vec3,
        _opacity: i64,
        _segments: i32,
    ) {
    }
}

const EVERYWHERE: i64 = -1_000;

fn frame(position: Vec3, forward: Vec3) -> LocalSpace {
    LocalSpace { side: Vec3::new(1_000, 0, 0), up: Vec3::new(0, 1_000, 0), forward, position }
}

fn boid(position: Vec3, forward: Vec3, radius: i64) -> SimpleVehicle {
    SimpleVehicle::new(frame(position, forward), 1_000, radius, 1_000, 1_000, 1_000).unwrap()
}

fn ahead(position: Vec3) -> SimpleVehicle {
    boid(position, Vec3::new(0, 0, 1_000), 0)
}

#[test]
fn neighbour_exactly_at_the_greatest_distance_counts() {
    let me = ahead(Vec3::zero());
    let other = ahead(Vec3::new(0, 0, 5_000));
    assert!(is_in_boid_neighbourhood(&me, &other, 0, 5_000, EVERYWHERE));
    assert!(is_in_boid_neighbourhood(&me, &other, 0, 5_001, EVERYWHERE));
    assert!(!is_in_boid_neighbourhood(&me, &other, 0, 4_999, EVERYWHERE));
    let slanted = ahead(Vec3::new(3_000, 0, 4_000));
    assert!(is_in_boid_neighbourhood(&me, &slanted, 0, 5_000, EVERYWHERE));
    assert!(!is_in_boid_neighbourhood(&me, &slanted, 0, 4_999, EVERYWHERE));
    let just_outside = ahead(Vec3::new(3_000, 1, 4_000));
    assert!(!is_in_boid_neighbourhood(&me, &just_outside, 0, 5_000, EVERYWHERE));
}

#[test]
fn neighbour_exactly_at_the_least_distance_counts() {
    let me = ahead(Vec3::zero());
    let other = ahead(Vec3::new(0, 0, 5_000));
    assert!(is_in_boid_neighbourhood(&me, &other, 5_000, 10_000, EVERYWHERE));
    assert!(is_in_boid_neighbourhood(&me, &other, 4_999, 10_000, EVERYWHERE));
    assert!(!is_in_boid_neighbourhood(&me, &other, 5_001, 10_000, EVERYWHERE));
    assert!(is_in_boid_neighbourhood(&me, &other, 5_000, 5_000, EVERYWHERE));
    assert!(is_in_boid_neighbourhood(&me, &other, -7_000, 5_000, EVERYWHERE));
}

#[test]
fn neighbourhood_with_an_empty_band() {
    let me = ahead(Vec3::zero());
    let other = ahead(Vec3::new(0, 0, 5_000));
    assert!(!is_in_boid_neighbourhood(&me, &other, 6_000, 4_000, EVERYWHERE));
    assert!(!is_in_boid_neighbourhood(&me, &other, 0, -1, EVERYWHERE));
    assert!(!is_in_boid_neighbourhood(&me, &me, 0, -1, EVERYWHERE));
}

#[test]
fn neighbour_exactly_on_the_cone_counts() {
    let me = ahead(Vec3::zero());
    // the cosine of the angle to this one is exactly 0.8
    let other = ahead(Vec3::new(3_000, 0, 4_000));
    assert!(is_in_boid_neighbourhood(&me, &other, 0, 10_000, 800));
    assert!(is_in_boid_neighbourhood(&me, &other, 0, 10_000, 799));
    assert!(!is_in_boid_neighbourhood(&me, &other, 0, 10_000, 801));
    assert!(is_in_boid_neighbourhood(&me, &other, 0, 10_000, 0));
    assert!(is_in_boid_neighbourhood(&me, &other, 0, 10_000, -800));
}

#[test]
fn neighbour_exactly_on_a_wide_cone_counts() {
    let me = ahead(Vec3::zero());
    // behind: the cosine of the angle to this one is exactly -0.8
    let other = ahead(Vec3::new(3_000, 0, -4_000));
    assert!(is_in_boid_neighbourhood(&me, &other, 0, 10_000, -800));
    assert!(is_in_boid_neighbourhood(&me, &other, 0, 10_000, -801));
    assert!(!is_in_boid_neighbourhood(&me, &other, 0, 10_000, -799));
    assert!(!is_in_boid_neighbourhood(&me, &other, 0, 10_000, 0));
    assert!(!is_in_boid_neighbourhood(&me, &other, 0, 10_000, 800));
}

#[test]
fn neighbourhood_cone_ends() {
    let me = ahead(Vec3::zero());
    let front = ahead(Vec3::new(0, 0, 5_000));
    let nearly_front = ahead(Vec3::new(1, 0, 5_000));
    let abeam = ahead(Vec3::new(0, -5_000, 0));
    let behind = ahead(Vec3::new(0, 0, -5_000));
    assert!(is_in_boid_neighbourhood(&me, &front, 0, 10_000, 1_000));
    assert!(!is_in_boid_neighbourhood(&me, &nearly_front, 0, 10_000, 1_000));
    assert!(!is_in_boid_neighbourhood(&me, &front, 0, 10_000, 1_001));
    assert!(is_in_boid_neighbourhood(&me, &abeam, 0, 10_000, 0));
    assert!(!is_in_boid_neighbourhood(&me, &abeam, 0, 10_000, 1));
    assert!(is_in_boid_neighbourhood(&me, &behind, 0, 10_000, -1_000));
    assert!(!is_in_boid_neighbourhood(&me, &behind, 0, 10_000, -999));
    assert!(is_in_boid_neighbourhood(&me, &behind, 0, 10_000, -1_000_000_000));
    assert!(!is_in_boid_neighbourhood(&me, &front, 0, 10_000, 1_000_000_000));
}

#[test]
fn neighbourhood_follows_the_heading() {
    let me = boid(Vec3::new(1_000, 1_000, 1_000), Vec3::new(-1_000, 0, 0), 0);
    let left = ahead(Vec3::new(-2_000, 1_000, 1_000));
    let right = ahead(Vec3::new(4_000, 1_000, 1_000));
    assert!(is_in_boid_neighbourhood(&me, &left, 0, 10_000, 900));
    assert!(!is_in_boid_neighbourhood(&me, &right, 0, 10_000, 900));
}

#[test]
fn neighbour_at_the_same_place() {
    let me = ahead(Vec3::new(1_000, 2_000, 3_000));
    let twin = ahead(Vec3::new(1_000, 2_000, 3_000));
    assert!(is_in_boid_neighbourhood(&me, &twin, 0, 10_000, 1_000));
    assert!(is_in_boid_neighbourhood(&me, &twin, 0, 0, EVERYWHERE));
    assert!(!is_in_boid_neighbourhood(&me, &twin, 1, 10_000, EVERYWHERE));
}

#[test]
fn neighbourhood_across_the_world() {
    let me = ahead(Vec3::new(-1_000_000_000, -1_000_000_000, -1_000_000_000));
    let other = ahead(Vec3::new(1_000_000_000, 1_000_000_000, 1_000_000_000));
    assert!(is_in_boid_neighbourhood(&me, &other, 0, i64::MAX, 577));
    assert!(!is_in_boid_neighbourhood(&me, &other, 0, i64::MAX, 578));
    assert!(!is_in_boid_neighbourhood(&me, &other, i64::MAX, i64::MAX, 0));
    assert!(is_in_boid_neighbourhood(&me, &other, i64::MIN, i64::MAX, 0));
    assert!(is_in_boid_neighbourhood(&other, &me, 0, 3_464_101_616, -1_000_000_000));
    assert!(!is_in_boid_neighbourhood(&other, &me, 0, 3_464_101_615, -1_000_000_000));
}

#[test]
fn flock_keeps_the_neighbours_in_their_order() {
    let me = boid(Vec3::zero(), Vec3::new(0, 0, 1_000), 1_000);
    let others = [
        ahead(Vec3::new(0, 0, 2_000)),
        boid(Vec3::new(0, 0, 3_000), Vec3::new(1_000, 0, 0), 0),
        ahead(Vec3::new(0, 0, -4_000)),
        ahead(Vec3::new(0, 0, 20_001)),
        ahead(Vec3::new(0, 0, 20_000)),
    ];
    let found = boid_neighbours(&me, &others, 20_000, 0);
    assert_eq!(
        found,
        vec![
            frame(Vec3::new(0, 0, 3_000), Vec3::new(1_000, 0, 0)),
            frame(Vec3::new(0, 0, 20_000), Vec3::new(0, 0, 1_000)),
        ]
    );
    let found = boid_neighbours(&me, &others, 20_000, EVERYWHERE);
    assert_eq!(found.len(), 3);
    assert_eq!(found[1].position, Vec3::new(0, 0, -4_000));
    let nobody: [SimpleVehicle; 0] = [];
    assert!(boid_neighbours(&me, &nobody, 20_000, EVERYWHERE).is_empty());
}

#[test]
fn flocking_without_neighbours_does_not_steer() {
    let me = boid(Vec3::new(100, 200, 300), Vec3::new(0, 0, 1_000), 1_000);
    let nobody: [SimpleVehicle; 0] = [];
    assert_eq!(steer_for_separation(&me, 10_000, EVERYWHERE, &nobody, &Quiet), Vec3::zero());
    assert_eq!(steer_for_alignment(&me, 10_000, EVERYWHERE, &nobody, &Quiet), Vec3::zero());
    assert_eq!(steer_for_cohesion(&me, 10_000, EVERYWHERE, &nobody, &Quiet), Vec3::zero());
    let strangers = [
        boid(Vec3::new(100, 200, 2_000), Vec3::new(1_000, 0, 0), 0),
        boid(Vec3::new(100, 200, 50_000), Vec3::new(1_000, 0, 0), 0),
        boid(Vec3::new(100, 200, -4_000), Vec3::new(1_000, 0, 0), 0),
    ];
    assert!(boid_neighbours(&me, &strangers, 10_000, 500).is_empty());
    assert_eq!(steer_for_separation(&me, 10_000, 500, &strangers, &Quiet), Vec3::zero());
    assert_eq!(steer_for_alignment(&me, 10_000, 500, &strangers, &Quiet), Vec3::zero());
    assert_eq!(steer_for_cohesion(&me, 10_000, 500, &strangers, &Quiet), Vec3::zero());
}

#[test]
fn separation_pushes_away_from_one_neighbour() {
    let me = ahead(Vec3::zero());
    let others = [ahead(Vec3::new(0, 0, 2_000))];
    assert_eq!(
        steer_for_separation(&me, 10_000, EVERYWHERE, &others, &Quiet),
        Vec3::new(0, 0, -1_000)
    );
    let others = [ahead(Vec3::new(3_000, 4_000, 0))];
    assert_eq!(
        steer_for_separation(&me, 10_000, EVERYWHERE, &others, &Quiet),
        Vec3::new(-600, -800, 0)
    );
}

#[test]
fn separation_pushes_away_from_two_neighbours() {
    let me = ahead(Vec3::zero());
    let others = [ahead(Vec3::new(0, 0, 2_000)), ahead(Vec3::new(2_000, 0, 0))];
    assert_eq!(
        steer_for_separation(&me, 10_000, EVERYWHERE, &others, &Quiet),
        Vec3::new(-707, 0, -707)
    );
}

#[test]
fn separation_weighs_the_nearer_neighbour_more() {
    let me = ahead(Vec3::zero());
    // pushes of 1/2 along -z and of 1/4 along -x
    let others = [ahead(Vec3::new(0, 0, 2_000)), ahead(Vec3::new(4_000, 0, 0))];
    assert_eq!(
        steer_for_separation(&me, 10_000, EVERYWHERE, &others, &Quiet),
        Vec3::new(-447, 0, -894)
    );
}

#[test]
fn separation_between_opposite_neighbours_cancels() {
    let me = ahead(Vec3::zero());
    let others = [ahead(Vec3::new(0, 3_000, 0)), ahead(Vec3::new(0, -3_000, 0))];
    assert_eq!(steer_for_separation(&me, 10_000, EVERYWHERE, &others, &Quiet), Vec3::zero());
}

#[test]
fn separation_from_a_neighbour_at_the_same_place() {
    let me = ahead(Vec3::zero());
    let others = [ahead(Vec3::zero())];
    assert_eq!(boid_neighbours(&me, &others, 10_000, EVERYWHERE).len(), 1);
    assert_eq!(steer_for_separation(&me, 10_000, EVERYWHERE, &others, &Quiet), Vec3::zero());
    let others = [ahead(Vec3::zero()), ahead(Vec3::new(0, 0, 2_000))];
    assert_eq!(
        steer_for_separation(&me, 10_000, EVERYWHERE, &others, &Quiet),
        Vec3::new(0, 0, -1_000)
    );
}

#[test]
fn separation_across_the_world() {
    let me = ahead(Vec3::new(-1_000_000_000, 0, 0));
    let others = [ahead(Vec3::new(1_000_000_000, 0, 0))];
    assert_eq!(
        steer_for_separation(&me, 2_000_000_000, EVERYWHERE, &others, &Quiet),
        Vec3::new(-1_000, 0, 0)
    );
}

#[test]
fn alignment_turns_toward_the_mean_heading() {
    let me = ahead(Vec3::zero());
    let others = [boid(Vec3::new(0, 0, 2_000), Vec3::new(1_000, 0, 0), 0)];
    assert_eq!(
        steer_for_alignment(&me, 10_000, EVERYWHERE, &others, &Quiet),
        Vec3::new(707, 0, -707)
    );
    let others = [boid(Vec3::new(0, 0, 2_000), Vec3::new(600, 0, 800), 0)];
    assert_eq!(
        steer_for_alignment(&me, 10_000, EVERYWHERE, &others, &Quiet),
        Vec3::new(949, 0, -316)
    );
}

#[test]
fn alignment_with_a_flock_of_the_same_heading_does_not_steer() {
    let me = ahead(Vec3::zero());
    let others = [ahead(Vec3::new(0, 0, 2_000)), ahead(Vec3::new(0, 2_000, 0))];
    assert_eq!(steer_for_alignment(&me, 10_000, EVERYWHERE, &others, &Quiet), Vec3::zero());
}

#[test]
fn alignment_takes_the_mean_of_the_headings() {
    let me = ahead(Vec3::zero());
    let others = [
        boid(Vec3::new(0, 0, 2_000), Vec3::new(1_000, 0, 0), 0),
        boid(Vec3::new(0, 0, 3_000), Vec3::new(0, 1_000, 0), 0),
        boid(Vec3::new(0, 0, 4_000), Vec3::new(0, 0, 1_000), 0),
    ];
    // the mean heading less the own one lies along (1, 1, -2)
    assert_eq!(
        steer_for_alignment(&me, 10_000, EVERYWHERE, &others, &Quiet),
        Vec3::new(408, 408, -816)
    );
}

#[test]
fn cohesion_turns_toward_the_mean_position() {
    let me = ahead(Vec3::zero());
    let others = [ahead(Vec3::new(0, 0, 2_000)), ahead(Vec3::new(2_000, 0, 0))];
    assert_eq!(
        steer_for_cohesion(&me, 10_000, EVERYWHERE, &others, &Quiet),
        Vec3::new(707, 0, 707)
    );
    let me = ahead(Vec3::new(1_000, 1_000, 1_000));
    let others = [ahead(Vec3::new(1_000, 1_000, 4_000))];
    assert_eq!(
        steer_for_cohesion(&me, 10_000, EVERYWHERE, &others, &Quiet),
        Vec3::new(0, 0, 1_000)
    );
}

#[test]
fn cohesion_at_the_centre_of_the_flock_does_not_steer() {
    let me = ahead(Vec3::new(0, 500, 0));
    let others = [ahead(Vec3::new(-2_000, 500, 0)), ahead(Vec3::new(2_000, 500, 0))];
    assert_eq!(steer_for_cohesion(&me, 10_000, EVERYWHERE, &others, &Quiet), Vec3::zero());
}

#[test]
fn cohesion_across_the_world() {
    let me = ahead(Vec3::new(-1_000_000_000, -1_000_000_000, -1_000_000_000));
    let others = [
        ahead(Vec3::new(1_000_000_000, 1_000_000_000, 1_000_000_000)),
        ahead(Vec3::new(1_000_000_000, 1_000_000_000, 1_000_000_000)),
    ];
    assert_eq!(
        steer_for_cohesion(&me, i64::MAX, EVERYWHERE, &others, &Quiet),
        Vec3::new(577, 577, 577)
    );
}

#[test]
fn the_three_flocking_behaviours_steer_by_the_same_neighbours() {
    let me = boid(Vec3::zero(), Vec3::new(0, 0, 1_000), 1_000);
    let near = boid(Vec3::new(0, 0, 2_999), Vec3::new(1_000, 0, 0), 0);
    let inside = boid(Vec3::new(0, 3_000, 4_000), Vec3::new(0, 1_000, 0), 0);
    let behind = boid(Vec3::new(0, 0, -5_000), Vec3::new(-1_000, 0, 0), 0);
    let far = boid(Vec3::new(0, 0, 9_000), Vec3::new(0, -1_000, 0), 0);
    let second = boid(Vec3::new(4_000, 0, 4_000), Vec3::new(0, 0, -1_000), 0);
    let crowd = [near, inside, behind, far, second];
    let found = boid_neighbours(&me, &crowd, 8_000, 700);
    assert_eq!(found.len(), 2);
    assert_eq!(found[0].position, Vec3::new(0, 3_000, 4_000));
    assert_eq!(found[1].position, Vec3::new(4_000, 0, 4_000));
    let chosen = [
        boid(Vec3::new(0, 3_000, 4_000), Vec3::new(0, 1_000, 0), 0),
        boid(Vec3::new(4_000, 0, 4_000), Vec3::new(0, 0, -1_000), 0),
    ];
    assert_eq!(
        steer_for_separation(&me, 8_000, 700, &crowd, &Quiet),
        steer_for_separation(&me, 1_000_000, EVERYWHERE, &chosen, &Quiet)
    );
    assert_eq!(
        steer_for_alignment(&me, 8_000, 700, &crowd, &Quiet),
        steer_for_alignment(&me, 1_000_000, EVERYWHERE, &chosen, &Quiet)
    );
    assert_eq!(
        steer_for_cohesion(&me, 8_000, 700, &crowd, &Quiet),
        steer_for_cohesion(&me, 1_000_000, EVERYWHERE, &chosen, &Quiet)
    );
    // the mean position lies along (4, 3, 8)
    assert_eq!(steer_for_cohesion(&me, 8_000, 700, &crowd, &Quiet), Vec3::new(424, 318, 848));
    assert_eq!(steer_for_separation(&me, 8_000, 700, &crowd, &Quiet), Vec3::new(-375, -360, -854));
    assert_eq!(steer_for_alignment(&me, 8_000, 700, &crowd, &Quiet), Vec3::new(0, 316, -949));
}

#[test]
fn flocking_ignores_those_nearer_than_three_radii() {
    let me = boid(Vec3::zero(), Vec3::new(0, 0, 1_000), 1_000);
    let close = [ahead(Vec3::new(0, 0, 2_999))];
    assert_eq!(steer_for_separation(&me, 10_000, EVERYWHERE, &close, &Quiet), Vec3::zero());
    assert_eq!(steer_for_cohesion(&me, 10_000, EVERYWHERE, &close, &Quiet), Vec3::zero());
    let touching = [ahead(Vec3::new(0, 0, 3_000))];
    assert_eq!(
        steer_for_separation(&me, 10_000, EVERYWHERE, &touching, &Quiet),
        Vec3::new(0, 0, -1_000)
    );
    assert_eq!(
        steer_for_cohesion(&me, 10_000, EVERYWHERE, &touching, &Quiet),
        Vec3::new(0, 0, 1_000)
    );
}

struct Recorder {
    close: Cell<u32>,
    threats: Cell<u32>,
    last_steer: Cell<i64>,
    our_future: Cell<Vec3>,
    threat_future: Cell<Vec3>,
}

impl Recorder {
    fn new() -> Recorder {
        Recorder {
            close: Cell::new(0),
            threats: Cell::new(0),
            last_steer: Cell::new(0),
            our_future: Cell::new(Vec3::zero()),
            threat_future: Cell::new(Vec3::zero()),
        }
    }
}

impl AnnotationBase for Recorder {
    fn is_enabled(&self) -> bool {
        true
    }
    fn enable(&self, _enabled: bool) {}
    fn line(&self, _start: Vec3, _end: Vec3, _color: Vec3, _opacity: i64) {}
    fn circle_xz(&self, _radius: i64, _center: Vec3, _color: Vec3, _opacity: i64, _segments: i32) {}
    fn disk_xz(&self, _radius: i64, _center: Vec3, _color: Vec3, _opacity: i64, _segments: i32) {}
    fn circle_3d(
        &self,
        _radius: i64,
        _center: Vec3,
        _axis: Vec3,
        _color: Vec3,
        _opacity: i64,
        _segments: i32,
    ) {
    }
    fn disk_3d(
        &self,
        _radius: i64,
        _center: Vec3,
        _axis: Vec3,
        _color: Vec3,
        _opacity: i64,
        _segments: i32,
    ) {
    }
    fn avoid_close_neighbour<V: VehicleBase>(&self, _other: &V, _additional_distance: i64) {
        self.close.set(self.close.get() + 1);
    }
    fn avoid_neighbour<V: VehicleBase>(
        &self,
        _threat: &V,
        steer: i64,
        our_future: Vec3,
        threat_future: Vec3,
    ) {
        self.threats.set(self.threats.get() + 1);
        self.last_steer.set(steer);
        self.our_future.set(our_future);
        self.threat_future.set(threat_future);
    }
}

fn mover(position: Vec3, forward: Vec3, speed: i64, radius: i64) -> SimpleVehicle {
    SimpleVehicle::new(frame(position, forward), 1_000, radius, speed, 1_000, 1_000).unwrap()
}

const PLUS_X: Vec3 = Vec3 { x: 1_000, y: 0, z: 0 };
const PLUS_Z: Vec3 = Vec3 { x: 0, y: 0, z: 1_000 };
const MINUS_Z: Vec3 = Vec3 { x: 0, y: 0, z: -1_000 };

#[test]
fn close_neighbour_is_sidestepped() {
    let me = mover(Vec3::zero(), PLUS_Z, 1_000, 500);
    let others = [mover(Vec3::new(1_000, 0, 1_000), PLUS_Z, 1_000, 500)];
    let seen = Recorder::new();
    // nearer than the two radii and half a unit: the part of the way back
    // from it that is not along the heading
    assert_eq!(steer_to_avoid_close_neighbours(&me, 500, &others, &seen), Vec3::new(-1_000, 0, 0));
    assert_eq!(seen.close.get(), 1);
    assert_eq!(steer_to_avoid_close_neighbours(&me, 0, &others, &seen), Vec3::zero());
    assert_eq!(seen.close.get(), 1);
}

#[test]
fn close_neighbour_exactly_at_the_least_distance_is_not_too_close() {
    let me = mover(Vec3::zero(), PLUS_Z, 1_000, 500);
    let others = [mover(Vec3::new(1_500, 0, 0), PLUS_Z, 1_000, 500)];
    assert_eq!(steer_to_avoid_close_neighbours(&me, 500, &others, &Quiet), Vec3::zero());
    assert_eq!(steer_to_avoid_close_neighbours(&me, 501, &others, &Quiet), Vec3::new(-1_500, 0, 0));
    assert_eq!(steer_to_avoid_close_neighbours(&me, -1_000, &others, &Quiet), Vec3::zero());
    assert_eq!(
        steer_to_avoid_close_neighbours(&me, 1_000_000_000, &others, &Quiet),
        Vec3::new(-1_500, 0, 0)
    );
}

#[test]
fn close_neighbours_the_first_decides() {
    let me = mover(Vec3::zero(), PLUS_Z, 1_000, 500);
    let others = [
        mover(Vec3::new(0, 9_000, 0), PLUS_Z, 1_000, 500),
        mover(Vec3::new(0, -700, 0), PLUS_Z, 1_000, 500),
        mover(Vec3::new(300, 0, 0), PLUS_Z, 1_000, 500),
    ];
    assert_eq!(steer_to_avoid_close_neighbours(&me, 0, &others, &Quiet), Vec3::new(0, 700, 0));
    let ahead_first = [
        mover(Vec3::new(0, 0, 700), PLUS_Z, 1_000, 500),
        mover(Vec3::new(300, 0, 0), PLUS_Z, 1_000, 500),
    ];
    // straight ahead there is no way to the side
    assert_eq!(steer_to_avoid_close_neighbours(&me, 0, &ahead_first, &Quiet), Vec3::zero());
}

#[test]
fn close_neighbour_at_the_same_place_is_passed_over() {
    let me = mover(Vec3::new(100, 100, 100), PLUS_Z, 1_000, 500);
    let others = [
        mover(Vec3::new(100, 100, 100), PLUS_Z, 1_000, 500),
        mover(Vec3::new(400, 100, 100), PLUS_Z, 1_000, 500),
    ];
    let seen = Recorder::new();
    assert_eq!(steer_to_avoid_close_neighbours(&me, 0, &others, &seen), Vec3::new(-300, 0, 0));
    assert_eq!(seen.close.get(), 1);
    let none: [SimpleVehicle; 0] = [];
    assert_eq!(steer_to_avoid_close_neighbours(&me, 0, &none, &seen), Vec3::zero());
}

#[test]
fn close_neighbour_along_a_slanted_heading() {
    let me = mover(Vec3::zero(), Vec3::new(600, 0, 800), 1_000, 500);
    let others = [mover(Vec3::new(-1_000, 0, 0), PLUS_Z, 1_000, 500)];
    // the way back is (1, 0, 0); along the heading 0.6 of it, (0.36, 0, 0.48)
    assert_eq!(steer_to_avoid_close_neighbours(&me, 0, &others, &Quiet), Vec3::zero());
    assert_eq!(steer_to_avoid_close_neighbours(&me, 1, &others, &Quiet), Vec3::new(640, 0, -480));
}

#[test]
fn nearest_approach_times() {
    let me = mover(Vec3::zero(), PLUS_Z, 1_000, 500);
    let head_on = mover(Vec3::new(100, 0, 10_000), MINUS_Z, 1_000, 500);
    assert_eq!(nearest_approach_time(&me, &head_on), 5_000);
    let overtaking = mover(Vec3::new(600, 0, -3_000), PLUS_Z, 2_000, 500);
    assert_eq!(nearest_approach_time(&me, &overtaking), 3_000);
    let crossing = mover(Vec3::new(-5_000, 0, 5_000), PLUS_X, 1_000, 500);
    assert_eq!(nearest_approach_time(&me, &crossing), 5_000);
    let leaving = mover(Vec3::new(0, 0, -5_000), MINUS_Z, 1_000, 500);
    assert_eq!(nearest_approach_time(&me, &leaving), -2_500);
    let alongside = mover(Vec3::new(7_000, 0, 0), PLUS_Z, 1_000, 500);
    assert_eq!(nearest_approach_time(&me, &alongside), 0);
    let slow = mover(Vec3::new(0, 0, 10_000), PLUS_Z, 997, 500);
    assert_eq!(nearest_approach_time(&me, &slow), 3_333_333);
}

#[test]
fn avoid_neighbours_turns_away_from_one_coming_head_on() {
    let me = mover(Vec3::zero(), PLUS_Z, 1_000, 500);
    let others = [mover(Vec3::new(100, 0, 10_000), MINUS_Z, 1_000, 500)];
    let seen = Recorder::new();
    assert_eq!(steer_to_avoid_neighbours(&me, 10_000, &others, &seen), Vec3::new(-1_000, 0, 0));
    assert_eq!(seen.threats.get(), 1);
    assert_eq!(seen.last_steer.get(), -1_000);
    assert_eq!(seen.our_future.get(), Vec3::new(0, 0, 5_000));
    assert_eq!(seen.threat_future.get(), Vec3::new(100, 0, 5_000));
    let others = [mover(Vec3::new(-100, 0, 10_000), MINUS_Z, 1_000, 500)];
    assert_eq!(steer_to_avoid_neighbours(&me, 10_000, &others, &seen), Vec3::new(1_000, 0, 0));
    let others = [mover(Vec3::new(0, 0, 10_000), MINUS_Z, 1_000, 500)];
    assert_eq!(steer_to_avoid_neighbours(&me, 10_000, &others, &seen), Vec3::new(1_000, 0, 0));
}

#[test]
fn avoid_neighbours_looks_no_further_ahead_than_asked() {
    let me = mover(Vec3::zero(), PLUS_Z, 1_000, 500);
    let others = [mover(Vec3::new(100, 0, 10_000), MINUS_Z, 1_000, 500)];
    let seen = Recorder::new();
    assert_eq!(steer_to_avoid_neighbours(&me, 5_000, &others, &seen), Vec3::zero());
    assert_eq!(steer_to_avoid_neighbours(&me, 0, &others, &seen), Vec3::zero());
    assert_eq!(steer_to_avoid_neighbours(&me, -1_000, &others, &seen), Vec3::zero());
    assert_eq!(seen.threats.get(), 0);
    assert_eq!(steer_to_avoid_neighbours(&me, 5_001, &others, &seen), Vec3::new(-1_000, 0, 0));
    assert_eq!(seen.threats.get(), 1);
}

#[test]
fn avoid_neighbours_ignores_one_that_passes_at_a_distance() {
    let me = mover(Vec3::zero(), PLUS_Z, 1_000, 500);
    let passing = [mover(Vec3::new(1_000, 0, 10_000), MINUS_Z, 1_000, 500)];
    assert_eq!(steer_to_avoid_neighbours(&me, 10_000, &passing, &Quiet), Vec3::zero());
    let grazing = [mover(Vec3::new(999, 0, 10_000), MINUS_Z, 1_000, 500)];
    assert_eq!(steer_to_avoid_neighbours(&me, 10_000, &grazing, &Quiet), Vec3::new(-1_000, 0, 0));
    let leaving = [mover(Vec3::new(0, 0, -5_000), MINUS_Z, 1_000, 500)];
    assert_eq!(steer_to_avoid_neighbours(&me, 10_000, &leaving, &Quiet), Vec3::zero());
    let thin = mover(Vec3::zero(), PLUS_Z, 1_000, 0);
    let others = [mover(Vec3::new(0, 0, 10_000), MINUS_Z, 1_000, 500)];
    assert_eq!(steer_to_avoid_neighbours(&thin, 10_000, &others, &Quiet), Vec3::zero());
}

#[test]
fn avoid_neighbours_turns_away_from_one_going_the_same_way() {
    let me = mover(Vec3::zero(), PLUS_Z, 1_000, 500);
    let others = [mover(Vec3::new(600, 0, -3_000), PLUS_Z, 2_000, 500)];
    assert_eq!(steer_to_avoid_neighbours(&me, 10_000, &others, &Quiet), Vec3::new(-1_000, 0, 0));
    let others = [mover(Vec3::new(-600, 0, -3_000), PLUS_Z, 2_000, 500)];
    assert_eq!(steer_to_avoid_neighbours(&me, 10_000, &others, &Quiet), Vec3::new(1_000, 0, 0));
}

#[test]
fn avoid_neighbours_turns_behind_one_that_crosses() {
    let me = mover(Vec3::zero(), PLUS_Z, 1_000, 500);
    let others = [mover(Vec3::new(-5_000, 0, 5_000), PLUS_X, 1_000, 500)];
    let seen = Recorder::new();
    assert_eq!(steer_to_avoid_neighbours(&me, 10_000, &others, &seen), Vec3::new(-1_000, 0, 0));
    assert_eq!(seen.last_steer.get(), -1_000);
    let minus_x = Vec3::new(-1_000, 0, 0);
    let others = [mover(Vec3::new(5_000, 0, 5_000), minus_x, 1_000, 500)];
    assert_eq!(steer_to_avoid_neighbours(&me, 10_000, &others, &seen), Vec3::new(1_000, 0, 0));
}

#[test]
fn avoid_neighbours_leaves_the_turn_to_the_slower_of_two_that_cross() {
    let me = mover(Vec3::zero(), PLUS_Z, 1_000, 500);
    let others = [mover(Vec3::new(-10_000, 0, 5_000), PLUS_X, 2_000, 500)];
    let seen = Recorder::new();
    assert_eq!(nearest_approach_time(&me, &others[0]), 5_000);
    assert_eq!(steer_to_avoid_neighbours(&me, 10_000, &others, &seen), Vec3::zero());
    assert_eq!(seen.threats.get(), 1);
    assert_eq!(seen.last_steer.get(), 0);
}

#[test]
fn avoid_neighbours_turns_away_from_the_soonest_threat() {
    let me = mover(Vec3::zero(), PLUS_Z, 1_000, 500);
    let late = mover(Vec3::new(100, 0, 10_000), MINUS_Z, 1_000, 500);
    let soon = mover(Vec3::new(-100, 0, 6_000), MINUS_Z, 1_000, 500);
    let never = mover(Vec3::new(5_000, 0, 4_000), MINUS_Z, 1_000, 500);
    let crowd = [late, never, soon];
    assert_eq!(steer_to_avoid_neighbours(&me, 10_000, &crowd, &Quiet), Vec3::new(1_000, 0, 0));
    let late = mover(Vec3::new(100, 0, 10_000), MINUS_Z, 1_000, 500);
    let soon = mover(Vec3::new(-100, 0, 6_000), MINUS_Z, 1_000, 500);
    let crowd = [soon, late];
    assert_eq!(steer_to_avoid_neighbours(&me, 10_000, &crowd, &Quiet), Vec3::new(1_000, 0, 0));
    let one = mover(Vec3::new(100, 0, 10_000), MINUS_Z, 1_000, 500);
    let other = mover(Vec3::new(-100, 0, 10_000), MINUS_Z, 1_000, 500);
    let tie = [one, other];
    assert_eq!(steer_to_avoid_neighbours(&me, 10_000, &tie, &Quiet), Vec3::new(-1_000, 0, 0));
}

#[test]
fn avoid_neighbours_first_sidesteps_one_that_touches() {
    let me = mover(Vec3::zero(), PLUS_Z, 1_000, 500);
    let head_on = mover(Vec3::new(100, 0, 10_000), MINUS_Z, 1_000, 500);
    let touching = mover(Vec3::new(0, 800, 0), PLUS_Z, 1_000, 500);
    let crowd = [head_on, touching];
    let seen = Recorder::new();
    assert_eq!(steer_to_avoid_neighbours(&me, 10_000, &crowd, &seen), Vec3::new(0, -800, 0));
    assert_eq!(seen.close.get(), 1);
    assert_eq!(seen.threats.get(), 0);
}

#[test]
fn avoid_neighbours_of_one_alongside() {
    let me = mover(Vec3::zero(), PLUS_Z, 1_000, 500);
    // not touching, since it has no radius of its own, but within twice the
    // radius of the vehicle now
    let others = [mover(Vec3::new(0, 900, 0), PLUS_Z, 1_000, 0)];
    assert_eq!(steer_to_avoid_neighbours(&me, 10_000, &others, &Quiet), Vec3::new(1_000, 0, 0));
    let others = [mover(Vec3::new(900, 0, 0), PLUS_Z, 1_000, 0)];
    assert_eq!(steer_to_avoid_neighbours(&me, 10_000, &others, &Quiet), Vec3::new(-1_000, 0, 0));
    let others = [mover(Vec3::new(1_000, 0, 0), PLUS_Z, 1_000, 0)];
    assert_eq!(steer_to_avoid_neighbours(&me, 10_000, &others, &Quiet), Vec3::zero());
    let none: [SimpleVehicle; 0] = [];
    assert_eq!(steer_to_avoid_neighbours(&me, 10_000, &none, &Quiet), Vec3::zero());
}

#[test]
fn separation_from_neighbours_at_four_and_three() {
    let me = boid(Vec3::zero(), Vec3::new(0, 0, 1_000), 500);
    let others = [ahead(Vec3::new(4_000, 0, 0)), ahead(Vec3::new(0, 0, 3_000))];
    // pushes of a quarter along -x and of a third along -z: along (3, 0, 4)
    assert_eq!(
        steer_for_separation(&me, 10_000, -500, &others, &Quiet),
        Vec3::new(-600, 0, -800)
    );
}

#[test]
fn flocking_keeps_the_direction_of_a_sum_smaller_than_the_count() {
    let me = ahead(Vec3::zero());
    let others = [ahead(Vec3::new(1, 0, 0)), ahead(Vec3::zero()), ahead(Vec3::zero())];
    assert_eq!(
        steer_for_cohesion(&me, 10_000, EVERYWHERE, &others, &Quiet),
        Vec3::new(1_000, 0, 0)
    );
    let others = [
        boid(Vec3::new(0, 0, 2_000), Vec3::new(1, 0, 1_000), 0),
        ahead(Vec3::new(0, 0, 3_000)),
        ahead(Vec3::new(0, 0, 4_000)),
    ];
    assert_eq!(
        steer_for_alignment(&me, 10_000, EVERYWHERE, &others, &Quiet),
        Vec3::new(1_000, 0, 0)
    );
}
