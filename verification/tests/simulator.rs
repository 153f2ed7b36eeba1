use macroquad::math::{vec2, Vec2};
use physics_sandbox::constraint::Constraint;
use physics_sandbox::physics_system::PhysicsSystem;
use physics_sandbox::point::Point;
use physics_sandbox::simulator::{apply_collision_velocity_changes, apply_point_changes};

fn velocity_of(system: &PhysicsSystem, id: u64) -> Vec2 {
    system.get_point(id).unwrap().velocity
}

#[test]
fn pair_change_is_added_to_the_first_and_subtracted_from_the_second() {
    let mut system = PhysicsSystem::new();
    let a = system.add_point(Point::new(vec2(0.3, 0.5), vec2(0.5, 0.25), false));
    let b = system.add_point(Point::new(vec2(0.5, 0.5), vec2(1.0, -2.0), false));
    let c = system.add_point(Point::new(vec2(0.7, 0.5), vec2(4.0, 8.0), false));
    apply_point_changes(&mut system, &[(a, b, vec2(0.25, 0.5))]);
    assert_eq!(velocity_of(&system, a), vec2(0.75, 0.75));
    assert_eq!(velocity_of(&system, b), vec2(0.75, -2.5));
    assert_eq!(velocity_of(&system, c), vec2(4.0, 8.0));
}

#[test]
fn pair_change_keeps_the_sum_of_the_two_velocities() {
    let mut system = PhysicsSystem::new();
    let a = system.add_point(Point::new(vec2(0.3, 0.5), vec2(0.5, 0.25), false));
    let b = system.add_point(Point::new(vec2(0.5, 0.5), vec2(1.0, -2.0), false));
    let before = velocity_of(&system, a) + velocity_of(&system, b);
    apply_point_changes(&mut system, &[(a, b, vec2(0.125, -0.75))]);
    let after = velocity_of(&system, a) + velocity_of(&system, b);
    assert_eq!(before, vec2(1.5, -1.75));
    assert_eq!(after, vec2(1.5, -1.75));
}

#[test]
fn pair_change_that_overflows_does_not_keep_the_sum() {
    let mut system = PhysicsSystem::new();
    let a = system.add_point(Point::new(vec2(0.3, 0.5), vec2(f32::MAX, 0.0), false));
    let b = system.add_point(Point::new(vec2(0.5, 0.5), vec2(0.0, 0.0), false));
    apply_point_changes(&mut system, &[(a, b, vec2(f32::MAX, 0.0))]);
    assert_eq!(velocity_of(&system, a), vec2(f32::INFINITY, 0.0));
    assert_eq!(velocity_of(&system, b), vec2(-f32::MAX, 0.0));
    let after = velocity_of(&system, a) + velocity_of(&system, b);
    assert_eq!(after.x, f32::INFINITY);
}

#[test]
fn pair_changes_are_applied_one_after_the_other() {
    let mut system = PhysicsSystem::new();
    let a = system.add_point(Point::new(vec2(0.1, 0.1), vec2(1.0, 1.0), false));
    let b = system.add_point(Point::new(vec2(0.2, 0.2), vec2(2.0, 2.0), false));
    let c = system.add_point(Point::new(vec2(0.3, 0.3), vec2(3.0, 3.0), false));
    apply_point_changes(
        &mut system,
        &[(a, b, vec2(0.5, 0.0)), (b, c, vec2(0.0, 0.25)), (c, a, vec2(1.0, 1.0))],
    );
    assert_eq!(velocity_of(&system, a), vec2(0.5, 0.0));
    assert_eq!(velocity_of(&system, b), vec2(1.5, 2.25));
    assert_eq!(velocity_of(&system, c), vec2(4.0, 3.75));
}

#[test]
fn pair_change_of_a_point_with_itself_adds_then_subtracts() {
    let mut system = PhysicsSystem::new();
    let a = system.add_point(Point::new(vec2(0.1, 0.1), vec2(1.0, 1.0), false));
    apply_point_changes(&mut system, &[(a, a, vec2(0.5, 0.25))]);
    assert_eq!(velocity_of(&system, a), vec2(1.0, 1.0));
    apply_point_changes(&mut system, &[(a, a, vec2(f32::MAX, 0.0))]);
    assert_eq!(velocity_of(&system, a), vec2(0.0, 1.0));
    apply_point_changes(&mut system, &[(a, a, vec2(f32::INFINITY, 0.0))]);
    assert!(velocity_of(&system, a).x.is_nan());
    assert_eq!(velocity_of(&system, a).y, 1.0);
}

#[test]
fn no_pair_changes_change_nothing() {
    let mut system = PhysicsSystem::new();
    let a = system.add_point(Point::new(vec2(0.1, 0.1), vec2(1.0, 1.0), true));
    apply_point_changes(&mut system, &[]);
    assert_eq!(velocity_of(&system, a), vec2(1.0, 1.0));
    assert_eq!(system.get_point(a).unwrap().location, vec2(0.1, 0.1));
    assert!(system.get_point(a).unwrap().is_static);
}

#[test]
fn pair_changes_touch_velocities_only() {
    let mut system = PhysicsSystem::new();
    let a = system.add_point(Point::new(vec2(0.3, 0.5), vec2(0.0, 0.0), true));
    let b = system.add_point(Point::new(vec2(0.5, 0.5), vec2(0.0, 0.0), false));
    system.add_constraint(Constraint::new(a, b, 0.2f32.to_bits()));
    apply_point_changes(&mut system, &[(a, b, vec2(0.5, -0.5))]);
    assert_eq!(system.get_point(a).unwrap().location, vec2(0.3, 0.5));
    assert_eq!(system.get_point(b).unwrap().location, vec2(0.5, 0.5));
    assert!(system.get_point(a).unwrap().is_static);
    assert!(!system.get_point(b).unwrap().is_static);
    assert_eq!(velocity_of(&system, a), vec2(0.5, -0.5));
    assert_eq!(velocity_of(&system, b), vec2(-0.5, 0.5));
    assert_eq!(system.get_points_ids().len(), 2);
    assert_eq!(system.get_constraints().len(), 1);
    assert_eq!(system.next_id(), 2);
}

#[test]
fn single_change_is_added_to_its_point() {
    let mut system = PhysicsSystem::new();
    let a = system.add_point(Point::new(vec2(0.1, 0.1), vec2(1.0, -1.0), false));
    let b = system.add_point(Point::new(vec2(0.2, 0.2), vec2(2.0, 2.0), false));
    apply_collision_velocity_changes(&mut system, &[(b, vec2(0.5, 0.25))]);
    assert_eq!(velocity_of(&system, a), vec2(1.0, -1.0));
    assert_eq!(velocity_of(&system, b), vec2(2.5, 2.25));
}

#[test]
fn single_changes_are_applied_one_after_the_other() {
    let mut system = PhysicsSystem::new();
    let a = system.add_point(Point::new(vec2(0.1, 0.1), vec2(1.0, -1.0), false));
    let b = system.add_point(Point::new(vec2(0.2, 0.2), vec2(2.0, 2.0), false));
    apply_collision_velocity_changes(
        &mut system,
        &[(a, vec2(0.5, 0.5)), (b, vec2(-2.0, 0.0)), (a, vec2(0.25, 0.0))],
    );
    assert_eq!(velocity_of(&system, a), vec2(1.75, -0.5));
    assert_eq!(velocity_of(&system, b), vec2(0.0, 2.0));
}

#[test]
fn single_changes_touch_velocities_only() {
    let mut system = PhysicsSystem::new();
    let a = system.add_point(Point::new(vec2(0.25, 0.75), vec2(0.0, 0.0), true));
    apply_collision_velocity_changes(&mut system, &[(a, vec2(3.0, 4.0))]);
    assert_eq!(system.get_point(a).unwrap().location, vec2(0.25, 0.75));
    assert!(system.get_point(a).unwrap().is_static);
    assert_eq!(velocity_of(&system, a), vec2(3.0, 4.0));
    apply_collision_velocity_changes(&mut system, &[]);
    assert_eq!(velocity_of(&system, a), vec2(3.0, 4.0));
}
