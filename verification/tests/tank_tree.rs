use nara::tank_tree::{Stat, TankDefEntry, TankFlags, TankRegistry, TreeError, DEFAULT_STAT_MAX};

fn entry(key: &str, id: u32, name: &str, ups: &[&str]) -> TankDefEntry {
    TankDefEntry {
        key: key.to_string(),
        id,
        name: name.to_string(),
        upgrade_names: ups.iter().map(|s| s.to_string()).collect(),
    }
}

fn ids(reg: &TankRegistry, tree: &[Vec<nara::tank_tree::TreeNode>]) -> Vec<Vec<u32>> {
    tree.iter().map(|tier| tier.iter().map(|n| reg.entries[n.entry].id).collect()).collect()
}

#[test]
fn tank_flags_default_can_only_shoot() {
    let f = TankFlags::default();
    assert_eq!(f, TankFlags { invisibility: false, zoom_ability: false, can_shoot: true, dev_only: false });
    let s = Stat::named("Reload".to_string());
    assert_eq!(s.name, "Reload");
    assert_eq!(s.max, DEFAULT_STAT_MAX);
}

#[test]
fn tree_is_built_breadth_first_from_the_basic_tank() {
    let reg = TankRegistry {
        entries: vec![
            entry("twin", 2, "Twin", &["triple", "quad"]),
            entry("tank", 0, "Tank", &["twin", "sniper", "ghost"]),
            entry("sniper", 3, "Sniper", &["assassin", "triple"]),
            entry("triple", 4, "Triple Shot", &[]),
            entry("quad", 5, "Quad Tank", &["tank"]),
            entry("assassin", 6, "Assassin", &[]),
        ],
    };
    let tree = reg.build_tree().expect("basic tank present");
    assert_eq!(ids(&reg, &tree), vec![vec![0], vec![2, 3], vec![4, 5, 6]]);
    assert_eq!(tree[0][0].upgrades, vec![2, 3]);
    assert_eq!(tree[1][0].upgrades, vec![4, 5]);
    assert_eq!(tree[2][1].upgrades, vec![0]);
}

#[test]
fn tree_without_basic_tank_is_refused() {
    let reg = TankRegistry { entries: vec![entry("twin", 2, "Twin", &[])] };
    assert!(matches!(reg.build_tree(), Err(TreeError::BasicTankMissing)));
    let empty = TankRegistry { entries: vec![] };
    assert!(matches!(empty.build_tiers(), Err(TreeError::BasicTankMissing)));
}

#[test]
fn classes_sharing_an_id_appear_once() {
    let reg = TankRegistry {
        entries: vec![
            entry("basic", 1, "Tank", &["a", "b"]),
            entry("a", 7, "A", &[]),
            entry("b", 7, "B", &[]),
        ],
    };
    let tiers = reg.build_tiers().unwrap();
    assert_eq!(tiers, vec![vec![0], vec![1]]);
}

#[test]
fn first_tank_named_tank_is_the_root() {
    let reg = TankRegistry {
        entries: vec![entry("x", 10, "Tank", &[]), entry("y", 11, "Tank", &["x"])],
    };
    let tiers = reg.build_tiers().unwrap();
    assert_eq!(tiers, vec![vec![0]]);
}
