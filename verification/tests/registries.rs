use nara::events::{CommandRegistry, EventRegistry, GameEventKind};

#[test]
fn listeners_keep_their_order_per_event() {
    let mut reg = EventRegistry::new();
    reg.on("player_spawn".to_string(), 3);
    reg.on("player_aim".to_string(), 4);
    reg.on("player_spawn".to_string(), 1);
    assert_eq!(reg.listeners_for(&"player_spawn".to_string()), vec![3, 1]);
    assert_eq!(reg.listeners_for(&"player_aim".to_string()), vec![4]);
    assert_eq!(reg.listeners_for(&"tank_tree".to_string()), Vec::<u32>::new());
    assert_eq!(reg.handlers_for_event(GameEventKind::PlayerSpawn), vec![3, 1]);
    assert_eq!(reg.handlers_for_event(GameEventKind::PlayerAim), vec![4]);
    assert_eq!(reg.handlers_for_event(GameEventKind::TankTree), Vec::<u32>::new());
}

#[test]
fn the_last_command_registration_wins() {
    let mut cmds = CommandRegistry::new();
    assert_eq!(cmds.lookup(&"kick".to_string()), None);
    cmds.register("kick".to_string(), 1);
    cmds.register("ban".to_string(), 2);
    cmds.register("kick".to_string(), 7);
    assert_eq!(cmds.lookup(&"kick".to_string()), Some(7));
    assert_eq!(cmds.lookup(&"ban".to_string()), Some(2));
    assert_eq!(cmds.lookup(&"mute".to_string()), None);
}
