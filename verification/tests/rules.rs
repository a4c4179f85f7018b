use nara::rules::{shape_kind_from_id, shape_sides};
use nara::rules::collision_damage;
use nara::rules::removal_order;
use nara::packets::EntityType;
use nara::rules::{
    apply_damage, entity_max_health, kill_reward, net_id_for, shape_kind_id, shape_max_health,
    shape_net_id_of, ShapeKind, DEFAULT_MAX_HEALTH, SHAPE_NET_BIT,
};
use nara::tanks::{EntityId, Tanks};

#[test]
fn shape_tables() {
    assert_eq!(shape_max_health(ShapeKind::Square), 10);
    assert_eq!(shape_max_health(ShapeKind::Triangle), 30);
    assert_eq!(shape_max_health(ShapeKind::Pentagon), 100);
    assert_eq!(shape_kind_id(ShapeKind::Square), 1);
    assert_eq!(shape_kind_id(ShapeKind::Triangle), 2);
    assert_eq!(shape_kind_id(ShapeKind::Pentagon), 3);
}

#[test]
fn max_health_prefers_tank_then_shape_then_default() {
    let mut tanks = Tanks::new(2);
    let tank = EntityId { index: 0, generation: 0 };
    tanks.insert(tank, "t".to_string(), 1, 77);
    assert_eq!(entity_max_health(&tanks, Some(ShapeKind::Square), tank), 77);
    let shape = EntityId { index: 4, generation: 0 };
    assert_eq!(entity_max_health(&tanks, Some(ShapeKind::Triangle), shape), 30);
    assert_eq!(entity_max_health(&tanks, None, shape), DEFAULT_MAX_HEALTH);
}

#[test]
fn net_ids_name_players_by_connection_and_shapes_by_slot() {
    let mut tanks = Tanks::new(2);
    let tank = EntityId { index: 2, generation: 0 };
    tanks.insert(tank, "t".to_string(), 1, 50);
    assert_eq!(net_id_for(&tanks, Some(42), tank), (42, EntityType::Player));
    assert_eq!(net_id_for(&tanks, None, tank), (0, EntityType::Player));
    let shape = EntityId { index: 17, generation: 3 };
    assert_eq!(net_id_for(&tanks, Some(42), shape), (0x8000_0011, EntityType::Shape));
    assert_eq!(shape_net_id_of(5) & SHAPE_NET_BIT, SHAPE_NET_BIT);
    assert_ne!(shape_net_id_of(5), 5);
}

#[test]
fn damage_saturates_and_reports_kills() {
    assert_eq!(apply_damage(10, 3), (7, false));
    assert_eq!(apply_damage(3, 10), (0, true));
    assert_eq!(apply_damage(5, 5), (0, true));
    assert_eq!(apply_damage(0, 5), (0, false));
    assert_eq!(apply_damage(5, 0), (5, false));
}

#[test]
fn kill_rewards() {
    let mut tanks = Tanks::new(2);
    let tank = EntityId { index: 0, generation: 0 };
    tanks.insert(tank, "t".to_string(), 1, 50);
    assert!(tanks.set_progress(tank, (41, 250), 1, 50, 2));
    assert_eq!(kill_reward(&tanks, Some(25), tank), Some(20));
    let shape = EntityId { index: 1, generation: 0 };
    assert_eq!(kill_reward(&tanks, Some(25), shape), Some(25));
    assert_eq!(kill_reward(&tanks, None, shape), None);
}

#[test]
fn spent_bullets_are_removed_highest_first_once_each() {
    assert_eq!(removal_order(&vec![3, 1, 3, 7, 0, 1]), vec![7, 3, 1, 0]);
    assert!(removal_order(&vec![]).is_empty());
    assert_eq!(removal_order(&vec![5]), vec![5]);
}

#[test]
fn collision_damage_table() {
    assert_eq!(collision_damage(true, true), Some((2, 2)));
    assert_eq!(collision_damage(true, false), Some((1, 15)));
    assert_eq!(collision_damage(false, true), Some((15, 1)));
    assert_eq!(collision_damage(false, false), None);
}

#[test]
fn clients_read_back_announced_shape_kinds() {
    for kind in [ShapeKind::Square, ShapeKind::Triangle, ShapeKind::Pentagon] {
        assert_eq!(shape_kind_from_id(shape_kind_id(kind)), kind);
    }
    assert_eq!(shape_kind_from_id(0), ShapeKind::Square);
    assert_eq!(shape_kind_from_id(99), ShapeKind::Square);
    assert_eq!(shape_sides(ShapeKind::Square), 4);
    assert_eq!(shape_sides(ShapeKind::Triangle), 3);
    assert_eq!(shape_sides(ShapeKind::Pentagon), 5);
}

#[test]
fn control_input_reaches_only_a_live_tank() {
    use_controls();
}

fn use_controls() {
    let mut tanks = Tanks::new(4);
    let me = EntityId { index: 1, generation: 2 };
    tanks.insert(me, "me".to_string(), 1, 50);
    assert!(nara::rules::apply_control(&mut tanks, Some(me), nara::rules::ControlEvent::AutoFire(true)));
    assert!(tanks.get(me).unwrap().auto_fire);
    assert!(nara::rules::apply_control(&mut tanks, Some(me), nara::rules::ControlEvent::Aim(1.5f32.to_bits())));
    assert_eq!(tanks.get(me).unwrap().aim_bits, 1.5f32.to_bits());
    assert!(nara::rules::apply_control(&mut tanks, Some(me), nara::rules::ControlEvent::Movement(None)));
    let stale = EntityId { index: 1, generation: 3 };
    assert!(!nara::rules::apply_control(&mut tanks, Some(stale), nara::rules::ControlEvent::AutoFire(false)));
    assert!(!nara::rules::apply_control(&mut tanks, None, nara::rules::ControlEvent::AutoFire(false)));
    assert!(tanks.get(me).unwrap().auto_fire);
    assert_eq!(tanks.len(), 1);
}
