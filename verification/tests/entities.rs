use multiplayer_fps_v3::entities::{Entity, EntityType, ObserverState};
use multiplayer_fps_v3::fixed::{cell, div_floor, normalize_angle, ONE, PI, TWO_PI};

struct Lamp {
    fov: i64,
}

impl Entity for Lamp {
    fn get_type(&self) -> EntityType {
        EntityType::NoneLiving
    }

    fn position(&self) -> (i64, i64) {
        (3 * ONE, 4 * ONE)
    }

    fn direction(&self) -> i64 {
        -1
    }

    fn get_fov(&self) -> i64 {
        self.fov
    }
}

#[test]
fn observer_needs_a_field_of_view_between_nothing_and_half_a_turn() {
    assert!(ObserverState::new((0, 0), 0, 0).is_none());
    assert!(ObserverState::new((0, 0), 0, -5).is_none());
    assert!(ObserverState::new((0, 0), 0, PI).is_none());
    assert!(ObserverState::new((0, 0), 0, i64::MAX).is_none());
    assert!(ObserverState::new((0, 0), 0, 1).is_some());
    assert!(ObserverState::new((i64::MIN, i64::MAX), i64::MIN, PI - 1).is_some());
}

#[test]
fn observer_faces_an_angle_within_one_turn() {
    let observer = ObserverState::new((7, -9), TWO_PI + 5, 1000).unwrap();
    assert_eq!(observer.position(), (7, -9));
    assert_eq!(observer.direction(), 5);
    assert_eq!(observer.fov(), 1000);
    assert_eq!(ObserverState::new((0, 0), -1, 1000).unwrap().direction(), TWO_PI - 1);
    assert_eq!(ObserverState::new((0, 0), -PI / 2, 1000).unwrap().direction(), TWO_PI - PI / 2);
    assert_eq!(ObserverState::new((0, 0), 3 * TWO_PI, 1000).unwrap().direction(), 0);
}

#[test]
fn any_entity_can_be_observed() {
    let lamp = Lamp { fov: ONE };
    assert!(matches!(lamp.get_type(), EntityType::NoneLiving));
    let state = ObserverState::observe(&lamp).unwrap();
    assert_eq!(state.position(), (3 * ONE, 4 * ONE));
    assert_eq!(state.direction(), TWO_PI - 1);
    assert_eq!(state.fov(), ONE);
    assert!(ObserverState::observe(&Lamp { fov: 0 }).is_none());
}

#[test]
fn angles_wrap_by_whole_turns() {
    assert_eq!(normalize_angle(0), 0);
    assert_eq!(normalize_angle(TWO_PI), 0);
    assert_eq!(normalize_angle(TWO_PI - 1), TWO_PI - 1);
    assert_eq!(normalize_angle(-1), TWO_PI - 1);
    assert_eq!(normalize_angle(5 * TWO_PI + 17), 17);
    assert_eq!(normalize_angle(-5 * TWO_PI - 17), TWO_PI - 17);
    assert_eq!(normalize_angle(i64::MIN), 186838);
}

#[test]
fn division_rounds_down() {
    assert_eq!(div_floor(7, 2), (3, 1));
    assert_eq!(div_floor(-7, 2), (-4, 1));
    assert_eq!(div_floor(-8, 2), (-4, 0));
    assert_eq!(div_floor(0, 5), (0, 0));
    assert_eq!(div_floor(-1, 65536), (-1, 65535));
    assert_eq!(cell(0), 0);
    assert_eq!(cell(ONE - 1), 0);
    assert_eq!(cell(ONE), 1);
    assert_eq!(cell(-1), -1);
    assert_eq!(cell(-ONE), -1);
    assert_eq!(cell(-ONE - 1), -2);
}
