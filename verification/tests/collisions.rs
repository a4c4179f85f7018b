use nara::collisions::{pick_target, resolve_contacts, resolve_hits};
use nara::tanks::{EntityId, Tanks};

#[test]
fn tank_and_shape_contacts_deal_their_damage() {
    // 0: tank, 1: shape, 2: tank, 3: shape
    let mut health = vec![20u32, 15, 3, 50];
    let is_tank = vec![true, false, true, false];
    // (0,1): tank 1 dmg, shape 15 -> shape dies. (2,0) is the same pair seen
    // from the other side and is passed over. (0,2): both 2. (1,3): shapes only push.
    let contacts = vec![(0usize, 1usize), (2, 0), (0, 2), (1, 3)];
    let killed = resolve_contacts(&mut health, &is_tank, &contacts);
    assert_eq!(health, vec![17, 0, 1, 50]);
    assert_eq!(killed, vec![1]);
}

#[test]
fn contact_kills_are_reported_once() {
    let mut health = vec![2u32, 2, 2];
    let is_tank = vec![true, true, true];
    let contacts = vec![(0usize, 1usize), (0, 2), (1, 2)];
    let killed = resolve_contacts(&mut health, &is_tank, &contacts);
    assert_eq!(health, vec![0, 0, 0]);
    assert_eq!(killed, vec![0, 1, 2]);
}

fn eid(index: usize) -> EntityId {
    EntityId { index, generation: 0 }
}

#[test]
fn bullets_skip_their_owner_and_report_kills() {
    assert_eq!(pick_target(4, &vec![4, 4, 7, 9]), Some(7));
    assert_eq!(pick_target(4, &vec![4]), None);
    assert_eq!(pick_target(4, &vec![]), None);
    // entities 0 and 2 are tanks, 1 is a shape worth 30 experience
    let mut tanks = Tanks::new(3);
    tanks.insert(eid(0), "a".to_string(), 1, 50);
    tanks.insert(eid(2), "c".to_string(), 1, 50);
    let mut health = vec![10u32, 5, 30];
    let ids = vec![eid(0), eid(1), eid(2)];
    let shape_reward = vec![None, Some(30), None];
    let owner_of = vec![0usize, 2, 0];
    let damage = vec![8u32, 6, 4];
    let candidates = vec![vec![0usize, 1], vec![2, 0], vec![]];
    let (kills, spent) =
        resolve_hits(&mut tanks, &mut health, &ids, &shape_reward, &owner_of, &damage, &candidates);
    assert_eq!(health, vec![4, 0, 30]);
    assert_eq!(kills, vec![(1, 0)]);
    assert_eq!(spent, vec![1, 0]);
    assert_eq!(tanks.get(eid(0)).unwrap().xp.0, 30);
    assert_eq!(tanks.get(eid(2)).unwrap().xp.0, 0);
}

#[test]
fn a_dead_entity_is_not_killed_twice_and_a_killed_tank_pays_half_its_experience() {
    let mut tanks = Tanks::new(2);
    tanks.insert(eid(0), "victim".to_string(), 1, 50);
    tanks.insert(eid(1), "killer".to_string(), 1, 50);
    // give the victim 200 experience by killing a rich shape first
    let mut health = vec![3u32, 100, 1];
    let ids = vec![eid(0), eid(1), eid(7)];
    let shape_reward = vec![None, None, Some(200)];
    let (kills, spent) = resolve_hits(
        &mut tanks,
        &mut health,
        &ids,
        &shape_reward,
        &vec![0usize, 1, 1, 1],
        &vec![5u32, 5, 5, 5],
        &vec![vec![2usize], vec![0], vec![0], vec![1]],
    );
    assert_eq!(kills, vec![(2, 0), (0, 1)]);
    assert_eq!(spent, vec![2, 1, 0]);
    assert_eq!(health, vec![0, 100, 0]);
    assert!(tanks.get(eid(0)).is_none());
    assert_eq!(tanks.get(eid(1)).unwrap().xp.0, 100);
}

#[test]
fn a_kill_that_levels_up_heals_the_killer() {
    let mut tanks = Tanks::new(2);
    tanks.insert(eid(1), "killer".to_string(), 1, 50);
    let mut health = vec![1u32, 20];
    let ids = vec![eid(9), eid(1)];
    let shape_reward = vec![Some(300), None];
    let (kills, _) =
        resolve_hits(&mut tanks, &mut health, &ids, &shape_reward, &vec![1usize], &vec![9u32], &vec![vec![0usize]]);
    assert_eq!(kills, vec![(0, 1)]);
    let t = tanks.get(eid(1)).unwrap();
    assert_eq!(t.level, 2);
    assert_eq!(t.xp, (50, 280));
    assert_eq!(t.max_health, 60);
    assert_eq!(health[1], 30);
}
