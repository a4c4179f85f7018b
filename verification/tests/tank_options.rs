use nara::tank_options::{
    current_options, grid_cols, grid_rows, options_snapshot, push_tank_options, tier_color,
    TankOption, TankOptionStore, TierColor,
};
use nara::tanks::default_barrels;

fn option(name: &str, tier: u32) -> TankOption {
    TankOption { name: name.to_string(), tier, sides: 1, barrels: default_barrels() }
}

#[test]
fn pushing_options_bumps_the_generation() {
    let mut store = TankOptionStore::new();
    let (g0, o0) = options_snapshot(&store);
    assert_eq!(g0, 0);
    assert!(o0.is_empty());
    push_tank_options(&mut store, vec![option("Twin", 1), option("Sniper", 1)]);
    let (g1, o1) = options_snapshot(&store);
    assert_eq!(g1, 1);
    assert_eq!(o1.len(), 2);
    assert_eq!(o1[1].name, "Sniper");
    assert_eq!(o1[0].barrels, default_barrels());
    let copy = current_options(&store);
    assert_eq!(copy.len(), 2);
    assert_eq!(copy[0].name, "Twin");
    push_tank_options(&mut store, vec![]);
    assert_eq!(options_snapshot(&store).0, 2);
    assert!(current_options(&store).is_empty());
}

#[test]
fn generation_counts_pushes() {
    let mut store = TankOptionStore::new();
    for _ in 0..3 {
        push_tank_options(&mut store, vec![]);
    }
    assert_eq!(options_snapshot(&store).0, 3);
}

#[test]
fn grid_columns_follow_the_square_root() {
    for n in 0..=3 {
        assert_eq!(grid_cols(n), 3);
    }
    for n in 4..=9 {
        assert_eq!(grid_cols(n), 3);
    }
    for n in 10..=16 {
        assert_eq!(grid_cols(n), 4);
    }
    for n in [17, 25, 26, 1000, usize::MAX] {
        assert_eq!(grid_cols(n), 5);
    }
    assert_eq!(grid_rows(0), 0);
    assert_eq!(grid_rows(3), 1);
    assert_eq!(grid_rows(4), 2);
    assert_eq!(grid_rows(10), 3);
    assert_eq!(grid_rows(26), 6);
}

#[test]
fn tiers_cycle_through_four_colours() {
    assert_eq!(tier_color(0), TierColor::Blue);
    assert_eq!(tier_color(1), TierColor::Red);
    assert_eq!(tier_color(2), TierColor::Purple);
    assert_eq!(tier_color(3), TierColor::Pentagon);
    assert_eq!(tier_color(6), TierColor::Purple);
}

#[test]
fn stat_bars_cap_their_level_and_lock_without_points() {
    use_stat_rows();
}

fn use_stat_rows() {
    let rows = nara::tank_options::stat_rows(&[0, 3, 7, 9, 6, 0, 1, 2], 2);
    assert_eq!(rows, vec![(0, true), (3, true), (7, false), (7, false), (6, true), (0, true), (1, true), (2, true)]);
    let rows = nara::tank_options::stat_rows(&[0, 3, 7, 9, 6, 0, 1, 2], 0);
    assert!(rows.iter().all(|r| !r.1));
    assert!(nara::tank_options::segment_lit(2, 3));
    assert!(!nara::tank_options::segment_lit(3, 3));
    assert_eq!(nara::tank_options::flash_segment(0), None);
    assert_eq!(nara::tank_options::flash_segment(4), Some(3));
}
