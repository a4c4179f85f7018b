use nara::events::{listener_event_name, GameEventKind};
use nara::controls::AutoFireLatch;
use nara::scores::top_scores;
use nara::controls::{movement_axes, LuaPlayer};
use nara::ip_lookup::{BadActorScan, ConnectionFlags, LookupProvider};
use nara::scores::my_score;
use nara::tanks::EntityId;

fn clean() -> ConnectionFlags {
    ConnectionFlags { is_crawler: Some(false), is_datacenter: None, is_vpn: Some(false), is_proxy: None, is_tor: None }
}

#[test]
fn providers_in_asking_order() {
    assert_eq!(
        LookupProvider::all(),
        &[LookupProvider::IpInfo, LookupProvider::IpSb, LookupProvider::ApipCc, LookupProvider::IpapiIs][..]
    );
}

#[test]
fn scan_stops_at_the_first_marking_answer() {
    let mut scan = BadActorScan::new();
    assert!(scan.observe(None));
    assert!(scan.observe(Some(clean())));
    assert!(!scan.is_bad_actor);
    let vpn = ConnectionFlags { is_vpn: Some(true), ..clean() };
    assert!(!scan.observe(Some(vpn)));
    assert!(scan.is_bad_actor);
    assert!(!scan.observe(Some(clean())));
    assert!(scan.is_bad_actor);
}

#[test]
fn movement_axes_cancel_opposites() {
    assert_eq!(movement_axes(false, false, false, false), None);
    assert_eq!(movement_axes(true, true, true, true), None);
    assert_eq!(movement_axes(true, false, false, false), Some((0, 1)));
    assert_eq!(movement_axes(false, true, true, false), Some((-1, -1)));
    assert_eq!(movement_axes(false, false, false, true), Some((1, 0)));
}

#[test]
fn lua_player_names_its_entity() {
    let id = EntityId { index: 4, generation: 2 };
    assert_eq!(LuaPlayer(id).entity(), id);
}

#[test]
fn my_score_reads_the_leaderboard_first() {
    let board = vec![("amy".to_string(), 900u32), ("me".to_string(), 300), ("me".to_string(), 5)];
    let me = "me".to_string();
    let ghost = "nobody".to_string();
    assert_eq!(my_score(Some(&me), &board, 12), 300);
    assert_eq!(my_score(Some(&ghost), &board, 12), 12);
    assert_eq!(my_score(None, &board, 12), 12);
}

#[test]
fn listener_names_per_event() {
    assert_eq!(listener_event_name(GameEventKind::PlayerSpawn), "player_spawn");
    assert_eq!(listener_event_name(GameEventKind::PlayerDisconnect), "player_disconnect");
    assert_eq!(listener_event_name(GameEventKind::PlayerMovement), "player_movement");
    assert_eq!(listener_event_name(GameEventKind::PlayerAutoFire), "player_autofire");
    assert_eq!(listener_event_name(GameEventKind::PlayerAim), "player_aim");
    assert_eq!(listener_event_name(GameEventKind::TankTree), "tank_tree");
}

#[test]
fn auto_fire_is_sent_on_change_only() {
    let mut latch = AutoFireLatch::new();
    assert_eq!(latch.update(false), None);
    assert_eq!(latch.update(true), Some(true));
    assert_eq!(latch.update(true), None);
    assert_eq!(latch.update(false), Some(false));
}

#[test]
fn leaderboard_keeps_top_ten_stably() {
    let entries: Vec<(String, u32)> = (0..12u32).map(|i| (format!("p{i}"), (i % 4) * 10)).collect();
    let board = top_scores(&entries);
    let names: Vec<&str> = board.iter().map(|(n, _)| n.as_str()).collect();
    assert_eq!(names, vec!["p3", "p7", "p11", "p2", "p6", "p10", "p1", "p5", "p9", "p0"]);
    assert_eq!(board[0].1, 30);
    assert_eq!(board[9].1, 0);
    let few = vec![("a".to_string(), 1u32), ("b".to_string(), 5)];
    assert_eq!(top_scores(&few), vec![("b".to_string(), 5), ("a".to_string(), 1)]);
    assert!(top_scores(&vec![]).is_empty());
}
