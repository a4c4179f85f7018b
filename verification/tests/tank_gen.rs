use nara::tank_gen::{boolean, d_bullet_type, d_max_health, d_sides, slug, upgrade_slugs};

#[test]
fn slugs_are_lowercase_words_joined_by_underscores() {
    assert_eq!(slug("Twin Flank"), "twin_flank");
    assert_eq!(slug("  Over--Lord!! "), "over_lord");
    assert_eq!(slug("Tri-Angle 2"), "tri_angle_2");
    assert_eq!(slug(""), "");
    assert_eq!(slug("___"), "");
    assert_eq!(slug("Ünï Cødé"), "n_c_d");
    assert_eq!(slug("ABC"), "abc");
}

#[test]
fn booleans_and_defaults() {
    assert_eq!(boolean(true), "true");
    assert_eq!(boolean(false), "false");
    assert_eq!(d_max_health(), 50);
    assert_eq!(d_sides(), 1);
    assert_eq!(d_bullet_type(), "bullet");
}

#[test]
fn upgrade_ids_become_slugs_with_later_definitions_winning() {
    let table = vec![
        (1u32, "tank".to_string()),
        (2u32, "twin".to_string()),
        (2u32, "twin_2".to_string()),
        (3u32, "sniper".to_string()),
    ];
    let slugs = upgrade_slugs(&table, &vec![2, 9, 3, 1]);
    assert_eq!(slugs, vec!["twin_2".to_string(), "sniper".to_string(), "tank".to_string()]);
    assert!(upgrade_slugs(&table, &vec![]).is_empty());
}

#[test]
fn slugging_a_slug_changes_nothing() {
    for name in ["Twin Flank", "  Over--Lord!! ", "Tri-Angle 2", "", "___", "Ünï Cødé", "a__b"] {
        let once = slug(name);
        assert_eq!(slug(&once), once);
    }
}
