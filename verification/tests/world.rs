use nara::packets::EntityType;
use nara::world::{ClientWorld, EntityUpdate, ServerPacket, Sprite};

fn empty_world() -> ClientWorld {
    ClientWorld {
        players: vec![],
        shapes: vec![],
        bullets: vec![],
        my_player_id: None,
        level: 1,
        xp: 0,
        xp_to_next: 250,
        health: 100,
        max_health: 100,
        leaderboard: vec![],
    }
}

fn update(id: u32, kind: EntityType, x: f32, y: f32) -> EntityUpdate {
    EntityUpdate {
        id,
        kind,
        x_bits: x.to_bits(),
        y_bits: y.to_bits(),
        rot_bits: 0.5f32.to_bits(),
        scale_bits: 1.25f32.to_bits(),
        health: 40,
        max_health: 60,
    }
}

#[test]
fn added_entities_go_to_their_lists() {
    let mut w = empty_world();
    let own = w.apply_server_packet(
        ServerPacket::AddEntity {
            id: 7,
            kind: EntityType::Player,
            name: "ann".to_string(),
            x_bits: 3.0f32.to_bits(),
            y_bits: 4.0f32.to_bits(),
            level: 2,
            is_mine: true,
            barrels: vec![],
        },
        1,
    );
    assert!(!own);
    assert_eq!(w.my_player_id, Some(7));
    assert_eq!(w.players.len(), 1);
    assert_eq!(w.players[0].name, "ann");
    assert_eq!(w.players[0].health, 100);
    assert_eq!(w.players[0].last_x_bits, 3.0f32.to_bits());
    w.apply_server_packet(
        ServerPacket::AddEntity {
            id: 9,
            kind: EntityType::Shape,
            name: String::new(),
            x_bits: 0,
            y_bits: 0,
            level: 3,
            is_mine: false,
            barrels: vec![],
        },
        1,
    );
    assert_eq!(w.shapes.len(), 1);
    assert_eq!(w.shapes[0].max_health, 100);
    assert_eq!(w.shapes[0].level, 3);
}

#[test]
fn updates_move_known_entities_and_add_unknown_bullets_and_shapes() {
    let mut w = empty_world();
    w.apply_server_packet(
        ServerPacket::UpdateEntities(vec![
            update(1, EntityType::Bullet, 1.0, 2.0),
            update(2, EntityType::Shape, 5.0, 6.0),
            update(3, EntityType::Player, 0.0, 0.0),
        ]),
        10,
    );
    assert_eq!(w.bullets.len(), 1);
    assert_eq!(w.shapes.len(), 1);
    assert_eq!(w.players.len(), 0);
    assert_eq!(w.shapes[0].health, 10);
    assert_eq!(w.shapes[0].updated_bits, 10);
    w.apply_server_packet(ServerPacket::UpdateEntities(vec![update(1, EntityType::Bullet, 8.0, 9.0)]), 20);
    let b = &w.bullets[0];
    assert_eq!(b.x_bits, 8.0f32.to_bits());
    assert_eq!(b.last_x_bits, 1.0f32.to_bits());
    assert_eq!(b.last_y_bits, 2.0f32.to_bits());
    assert_eq!(b.updated_bits, 20);
    assert_eq!(w.bullets.len(), 1);
}

#[test]
fn removing_the_own_player_reopens_the_menu() {
    let mut w = empty_world();
    w.apply_server_packet(
        ServerPacket::AddEntity {
            id: 5,
            kind: EntityType::Player,
            name: "me".to_string(),
            x_bits: 0,
            y_bits: 0,
            level: 1,
            is_mine: true,
            barrels: vec![],
        },
        0,
    );
    assert!(!w.apply_server_packet(ServerPacket::RemoveEntity { id: 5, kind: EntityType::Shape }, 0));
    assert!(!w.players[0].dying);
    assert!(w.apply_server_packet(ServerPacket::RemoveEntity { id: 5, kind: EntityType::Player }, 0));
    assert!(w.players[0].dying);
    assert_eq!(w.my_player_id, None);
    w.apply_server_packet(
        ServerPacket::PlayerStats { level: 4, xp: 10, xp_to_next: 300, health: 70, max_health: 130 },
        0,
    );
    assert_eq!((w.level, w.xp, w.xp_to_next, w.health, w.max_health), (4, 10, 300, 70, 130));
}

#[test]
fn shape_kinds_number_their_sides() {
    assert_eq!(nara::world::shape_sides_of(1), 4);
    assert_eq!(nara::world::shape_sides_of(2), 3);
    assert_eq!(nara::world::shape_sides_of(3), 5);
    assert_eq!(nara::world::shape_sides_of(7), 4);
}

#[test]
fn leaderboard_rows_replace_the_old_ones() {
    let mut w = empty_world();
    w.apply_server_packet(ServerPacket::Leaderboard(vec![("ann".to_string(), 9)]), 0);
    w.apply_server_packet(ServerPacket::Leaderboard(vec![("bo".to_string(), 4), ("cy".to_string(), 1)]), 0);
    assert_eq!(w.leaderboard, vec![("bo".to_string(), 4), ("cy".to_string(), 1)]);
    assert!(w.players.is_empty());
}

#[test]
fn new_sprites_start_fresh_by_kind() {
    let p = Sprite::new(EntityType::Player, 1, "ann".to_string(), 5, 6, 3);
    assert_eq!((p.name.as_str(), p.level, p.health, p.max_health), ("ann", 3, 100, 100));
    assert_eq!((p.last_x_bits, p.last_y_bits, p.dying), (5, 6, false));
    let s = Sprite::new(EntityType::Shape, 2, "x".to_string(), 0, 0, 2);
    assert_eq!((s.name.as_str(), s.health, s.max_health), ("", 30, 30));
    let s = Sprite::new(EntityType::Shape, 2, String::new(), 0, 0, 3);
    assert_eq!(s.max_health, 100);
    let s = Sprite::new(EntityType::Shape, 2, String::new(), 0, 0, 9);
    assert_eq!((s.max_health, nara::world::shape_sides_of(s.level)), (10, 4));
    let b = Sprite::new(EntityType::Bullet, 3, String::new(), 0, 0, 4);
    assert_eq!((b.level, b.health), (0, 0));
}
