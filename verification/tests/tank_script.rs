use nara::tank_script::{render_tank_script, BarrelText, StatText, TankText};

fn s(v: &str) -> String {
    v.to_string()
}

fn tank(stats: Vec<StatText>, barrels: Vec<BarrelText>) -> TankText {
    TankText {
        id: 12,
        name: s("Twin"),
        upgrade_message: s(""),
        level_requirement: 15,
        max_health: 50,
        sides: 1,
        field_factor: s("1"),
        absorbtion_factor: s("0.5"),
        pre_addon: 0,
        post_addon: 107,
        invisibility: false,
        zoom_ability: false,
        can_shoot: true,
        dev_only: false,
        stats,
        barrels,
    }
}

#[test]
fn script_without_upgrades_stats_or_barrels() {
    let out = render_tank_script(&tank(vec![], vec![]), &vec![]);
    let lines = [
        "-- Twin (converted from tank_defs.json)",
        "-- units are game units (tank body = 42), angles are degrees.",
        "return {",
        "    id = 12,",
        "    name = \"Twin\",",
        "    upgradeMessage = \"\",",
        "    levelRequirement = 15,",
        "    upgrades = {},",
        "    speed = 1,",
        "    maxHealth = 50,",
        "    sides = 1,",
        "    fieldFactor = 1,",
        "    absorbtionFactor = 0.5,",
        "    preAddon = 0,",
        "    postAddon = 107,",
        "    flags = {",
        "        invisibility = false,",
        "        zoomAbility = false,",
        "        canShoot = true,",
        "        devOnly = false,",
        "    },",
        "    stats = {",
        "    },",
        "    barrels = {",
        "    },",
        "    onShoot = function(player)",
        "        -- TO@@",
        "    end,",
        "}",
    ];
    let expected = format!("{}\n", lines.join("\n")).replace("@@", "DO");
    assert_eq!(out, expected);
}

#[test]
fn script_lists_upgrades_stats_and_barrels() {
    let barrel = BarrelText {
        y: s("-10.5"),
        angle: s("90"),
        width: s("17.64"),
        length: s("39.9"),
        delay: s("0"),
        reload: s("1"),
        recoil: s("1"),
        is_trapezoid: true,
        trapezoid_direction: s("0"),
        addon: s("0"),
        drone_count: Some(4),
        bullet_type: s("drone"),
        health: s("1"),
        damage: s("0.7"),
        speed: s("1"),
        scatter_rate: s("1"),
        life_length: s("1"),
        absorbtion_factor: s("1"),
        size_ratio: s("1"),
    };
    let stats = vec![StatText { name: s("Health Regen"), max: 7 }];
    let out = render_tank_script(&tank(stats, vec![barrel]), &vec![s("triplet"), s("quad_tank")]);
    assert!(out.contains("    upgrades = {\n        \"triplet\",\n        \"quad_tank\",\n    },\n"));
    assert!(out.contains("    stats = {\n        { name = \"Health Regen\", max = 7 },\n    },\n"));
    assert!(out.contains("            y = -10.5,\n"));
    assert!(out.contains("            isTrapezoid = true,\n"));
    assert!(out.contains("            droneCount = 4,\n"));
    assert!(out.contains("                type = \"drone\",\n"));
    assert!(out.contains("                damage = 0.7,\n"));
    let tail = format!("            }},\n        }},\n    }},\n    onShoot = function(player)\n        -- TO{}\n    end,\n}}\n", "DO");
    assert!(out.ends_with(&tail));
}
