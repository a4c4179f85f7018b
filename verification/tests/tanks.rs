use nara::rules::{grant_fits_check, grant_xp, MAX_LEVEL};
use nara::tanks::{
    default_barrels, BarrelBits, EntityId, Tanks, DEFAULT_BARREL_LENGTH_BITS,
    DEFAULT_BARREL_WIDTH_BITS, START_BULLET_SPEED_BITS, START_RELOAD_TIME_BITS,
};

fn id(index: usize, generation: u32) -> EntityId {
    EntityId { index, generation }
}

#[test]
fn bit_constants_are_the_starting_floats() {
    assert_eq!(f32::from_bits(START_BULLET_SPEED_BITS), 100.0);
    assert_eq!(f32::from_bits(START_RELOAD_TIME_BITS), 0.5);
    assert_eq!(f32::from_bits(DEFAULT_BARREL_WIDTH_BITS), 18.0);
    assert_eq!(f32::from_bits(DEFAULT_BARREL_LENGTH_BITS), 40.0);
    let b = default_barrels();
    assert_eq!(b.len(), 1);
    assert_eq!(b[0], BarrelBits { x: 0, y: 0, angle: 0, width: DEFAULT_BARREL_WIDTH_BITS, length: DEFAULT_BARREL_LENGTH_BITS });
}

#[test]
fn insert_then_get_gives_a_fresh_basic_tank() {
    let mut tanks = Tanks::new(8);
    assert!(tanks.is_empty());
    tanks.insert(id(5, 1), "alice".to_string(), 3, 50);
    assert_eq!(tanks.len(), 1);
    assert!(!tanks.is_empty());
    let t = tanks.get(id(5, 1)).expect("stored");
    assert_eq!(t.name, "alice");
    assert_eq!(t.xp, (0, 250));
    assert_eq!(t.level, 1);
    assert_eq!(t.tank_type, 3);
    assert_eq!(t.max_health, 50);
    assert_eq!(t.bullet_damage, 2);
    assert_eq!(t.move_dir_bits, None);
    assert!(!t.auto_fire);
    assert_eq!(t.barrels.len(), 1);
    assert!(tanks.get(id(5, 2)).is_none());
    assert!(tanks.get(id(4, 1)).is_none());
}

#[test]
fn insert_on_a_taken_index_does_nothing() {
    let mut tanks = Tanks::new(2);
    tanks.insert(id(0, 1), "first".to_string(), 1, 50);
    tanks.insert(id(0, 2), "second".to_string(), 1, 80);
    assert_eq!(tanks.len(), 1);
    assert_eq!(tanks.get(id(0, 1)).unwrap().name, "first");
    assert!(tanks.get(id(0, 2)).is_none());
}

#[test]
fn remove_moves_the_last_tank_and_keeps_the_others() {
    let mut tanks = Tanks::new(4);
    tanks.insert(id(2, 0), "a".to_string(), 1, 10);
    tanks.insert(id(7, 0), "b".to_string(), 1, 20);
    tanks.insert(id(1, 0), "c".to_string(), 1, 30);
    assert!(!tanks.remove(id(2, 1)));
    assert!(tanks.remove(id(2, 0)));
    assert!(!tanks.remove(id(2, 0)));
    assert_eq!(tanks.len(), 2);
    assert!(tanks.get(id(2, 0)).is_none());
    assert_eq!(tanks.get(id(7, 0)).unwrap().max_health, 20);
    assert_eq!(tanks.get(id(1, 0)).unwrap().max_health, 30);
    assert!(tanks.remove(id(1, 0)));
    assert!(tanks.remove(id(7, 0)));
    assert!(tanks.is_empty());
}

#[test]
fn remove_undoes_insert() {
    let mut tanks = Tanks::new(4);
    tanks.insert(id(3, 0), "kept".to_string(), 1, 10);
    tanks.insert(id(9, 4), "added".to_string(), 1, 20);
    assert!(tanks.remove(id(9, 4)));
    assert_eq!(tanks.len(), 1);
    assert_eq!(tanks.get(id(3, 0)).unwrap().name, "kept");
    assert!(tanks.get(id(9, 4)).is_none());
    tanks.insert(id(9, 5), "again".to_string(), 1, 20);
    assert_eq!(tanks.get(id(9, 5)).unwrap().name, "again");
}

#[test]
fn setters_touch_one_field_of_one_tank() {
    let mut tanks = Tanks::new(4);
    tanks.insert(id(0, 0), "a".to_string(), 1, 10);
    tanks.insert(id(1, 0), "b".to_string(), 1, 10);
    let dir = 1.5f32.to_bits();
    assert!(tanks.set_movement_dir(id(0, 0), Some(dir)));
    assert!(tanks.set_auto_fire(id(0, 0), true));
    assert!(tanks.set_aim(id(0, 0), 2.0f32.to_bits()));
    assert!(!tanks.set_aim(id(0, 1), 0));
    assert!(!tanks.set_auto_fire(id(3, 0), true));
    assert!(!tanks.set_movement_dir(id(3, 0), None));
    let a = tanks.get(id(0, 0)).unwrap();
    assert_eq!(a.move_dir_bits, Some(dir));
    assert!(a.auto_fire);
    assert_eq!(f32::from_bits(a.aim_bits), 2.0);
    let b = tanks.get(id(1, 0)).unwrap();
    assert_eq!(b.move_dir_bits, None);
    assert!(!b.auto_fire);
    assert!(tanks.set_progress(id(1, 0), (4, 9), 3, 70, 5));
    let b = tanks.get(id(1, 0)).unwrap();
    assert_eq!((b.xp, b.level, b.max_health, b.bullet_damage), ((4, 9), 3, 70, 5));
}

#[test]
fn grant_xp_levels_up_and_heals() {
    let mut tanks = Tanks::new(2);
    let me = id(0, 0);
    tanks.insert(me, "me".to_string(), 1, 50);
    let mut health = 45;
    assert!(grant_fits_check(&tanks, me, 300, health));
    let levels = grant_xp(&mut tanks, me, 300, &mut health);
    assert_eq!(levels, 1);
    let t = tanks.get(me).unwrap();
    assert_eq!(t.level, 2);
    assert_eq!(t.xp, (50, 280));
    assert_eq!(t.max_health, 60);
    assert_eq!(t.bullet_damage, 4);
    assert_eq!(health, 55);
}

#[test]
fn grant_xp_needs_grow_by_twelve_percent() {
    let mut tanks = Tanks::new(2);
    let me = id(0, 0);
    tanks.insert(me, "me".to_string(), 1, 50);
    let mut health = 50;
    // 250 + 280 + 313 = 843 covers three levels
    let levels = grant_xp(&mut tanks, me, 843, &mut health);
    assert_eq!(levels, 3);
    let t = tanks.get(me).unwrap();
    assert_eq!(t.level, 4);
    assert_eq!(t.xp, (0, 350));
    assert_eq!(health, 80);
    assert_eq!(t.max_health, 80);
}

#[test]
fn grant_xp_without_level_keeps_health() {
    let mut tanks = Tanks::new(2);
    let me = id(0, 0);
    tanks.insert(me, "me".to_string(), 1, 50);
    let mut health = 7;
    assert_eq!(grant_xp(&mut tanks, me, 100, &mut health), 0);
    assert_eq!(health, 7);
    assert_eq!(tanks.get(me).unwrap().xp, (100, 250));
    let mut other = 3;
    assert_eq!(grant_xp(&mut tanks, id(1, 0), 1000, &mut other), 0);
    assert_eq!(other, 3);
}

#[test]
fn grant_xp_stops_at_the_level_cap() {
    let mut tanks = Tanks::new(2);
    let me = id(0, 0);
    tanks.insert(me, "me".to_string(), 1, 50);
    let mut health = 1;
    let levels = grant_xp(&mut tanks, me, 4_000_000_000, &mut health);
    assert_eq!(levels, MAX_LEVEL - 1);
    let t = tanks.get(me).unwrap();
    assert_eq!(t.level, MAX_LEVEL);
    assert_eq!(t.xp.0, t.xp.1 - 1);
    assert!(t.xp.1 <= 100_000);
    assert_eq!(t.max_health, 50 + 10 * (MAX_LEVEL - 1));
    assert_eq!(health, 1 + 10 * (MAX_LEVEL - 1));
    let mut again = health;
    assert_eq!(grant_xp(&mut tanks, me, 5, &mut again), 0);
    let t = tanks.get(me).unwrap();
    assert_eq!(t.xp.0, t.xp.1 - 1);
}

#[test]
fn grant_fits_check_spots_overflow() {
    let mut tanks = Tanks::new(2);
    let me = id(0, 0);
    tanks.insert(me, "me".to_string(), 1, u32::MAX - 5);
    assert!(!grant_fits_check(&tanks, me, 300, 0));
    assert!(grant_fits_check(&tanks, me, 10, 0));
    assert!(!grant_fits_check(&tanks, me, u32::MAX, 0));
    assert!(grant_fits_check(&tanks, id(1, 0), u32::MAX, u32::MAX));
}
