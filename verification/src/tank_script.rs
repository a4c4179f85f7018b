//! Writing a tank definition out as a script file. Fractional values come
//! already written out as text; integers, flags, lists and the layout of the
//! file are written here.
use vstd::prelude::*;
use vstd::string::StringExecFns;
use crate::text::push_char;
use crate::tank_gen::boolean;

verus! {

/// One barrel of a definition, its fractional values as text.
pub struct BarrelText {
    pub y: String,
    pub angle: String,
    pub width: String,
    pub length: String,
    pub delay: String,
    pub reload: String,
    pub recoil: String,
    pub is_trapezoid: bool,
    pub trapezoid_direction: String,
    pub addon: String,
    pub drone_count: Option<u32>,
    pub bullet_type: String,
    pub health: String,
    pub damage: String,
    pub speed: String,
    pub scatter_rate: String,
    pub life_length: String,
    pub absorbtion_factor: String,
    pub size_ratio: String,
}

/// One stat line of a definition.
pub struct StatText {
    pub name: String,
    pub max: u32,
}

/// A tank definition, its fractional values as text.
pub struct TankText {
    pub id: u32,
    pub name: String,
    pub upgrade_message: String,
    pub level_requirement: u32,
    pub max_health: u32,
    pub sides: u32,
    pub field_factor: String,
    pub absorbtion_factor: String,
    pub pre_addon: u32,
    pub post_addon: u32,
    pub invisibility: bool,
    pub zoom_ability: bool,
    pub can_shoot: bool,
    pub dev_only: bool,
    pub stats: Vec<StatText>,
    pub barrels: Vec<BarrelText>,
}

/// The decimal digit `d` (below ten) as a character.
pub open spec fn digit_char(d: u32) -> char {
    ((48 + d) as u8) as char
}

/// `pre` followed by `n` in decimal.
pub open spec fn dec_onto(pre: Seq<char>, n: u32) -> Seq<char>
    decreases n,
{
    if n < 10 {
        pre.push(digit_char(n))
    } else {
        dec_onto(pre, n / 10).push(digit_char(n % 10))
    }
}

/// How a flag is written.
pub open spec fn bool_text(b: bool) -> Seq<char> {
    if b {
        "true"@
    } else {
        "false"@
    }
}

/// Appends `n` in decimal.
fn push_dec(out: &mut String, n: u32)
    ensures
        final(out)@ == dec_onto(old(out)@, n),
    decreases n,
{
    if n >= 10 {
        push_dec(out, n / 10);
    }
    let d: u32 = n % 10;
    let c = (48u8 + (d as u8)) as char;
    push_char(out, c);
}

fn push_bool(out: &mut String, b: bool)
    ensures
        final(out)@ == old(out)@ + bool_text(b),
{
    out.append(boolean(b));
}

/// The opening lines: name comment, units comment, id, name, upgrade
/// message and level requirement.
pub open spec fn header_onto(pre: Seq<char>, t: TankText) -> Seq<char> {
    dec_onto(
        dec_onto(
            pre + "-- "@ + t.name@ + " (converted from tank_defs.json)\n"@
                + "-- units are game units (tank body = 42), angles are degrees.\n"@ + "return {\n"@
                + "    id = "@,
            t.id,
        ) + ",\n"@ + "    name = \""@ + t.name@ + "\",\n"@ + "    upgradeMessage = \""@
            + t.upgrade_message@ + "\",\n"@ + "    levelRequirement = "@,
        t.level_requirement,
    ) + ",\n"@
}

fn push_header(out: &mut String, t: &TankText)
    ensures
        final(out)@ == header_onto(old(out)@, *t),
{
    out.append("-- ");
    out.append(t.name.as_str());
    out.append(" (converted from tank_defs.json)\n");
    out.append("-- units are game units (tank body = 42), angles are degrees.\n");
    out.append("return {\n");
    out.append("    id = ");
    push_dec(out, t.id);
    out.append(",\n");
    out.append("    name = \"");
    out.append(t.name.as_str());
    out.append("\",\n");
    out.append("    upgradeMessage = \"");
    out.append(t.upgrade_message.as_str());
    out.append("\",\n");
    out.append("    levelRequirement = ");
    push_dec(out, t.level_requirement);
    out.append(",\n");
}

/// One quoted upgrade line per entry of `ups`.
pub open spec fn upgrade_lines_onto(pre: Seq<char>, ups: Seq<String>) -> Seq<char>
    decreases ups.len(),
{
    if ups.len() == 0 {
        pre
    } else {
        upgrade_lines_onto(pre, ups.drop_last()) + "        \""@ + ups.last()@ + "\",\n"@
    }
}

/// The upgrade list: `{},` when empty, else one line per upgrade.
pub open spec fn upgrades_onto(pre: Seq<char>, ups: Seq<String>) -> Seq<char> {
    if ups.len() == 0 {
        pre + "    upgrades = {"@ + "},\n"@
    } else {
        upgrade_lines_onto(pre + "    upgrades = {"@ + "\n"@, ups) + "    },\n"@
    }
}

fn push_upgrades(out: &mut String, ups: &Vec<String>)
    ensures
        final(out)@ == upgrades_onto(old(out)@, ups@),
{
    out.append("    upgrades = {");
    if ups.len() == 0 {
        out.append("},\n");
    } else {
        out.append("\n");
        let ghost start = out@;
        let mut i: usize = 0;
        while i < ups.len()
            invariant
                i <= ups@.len(),
                out@ == upgrade_lines_onto(start, ups@.subrange(0, i as int)),
            decreases ups.len() - i,
        {
            proof {
                assert(ups@.subrange(0, i + 1).drop_last() =~= ups@.subrange(0, i as int));
            }
            out.append("        \"");
            out.append(ups[i].as_str());
            out.append("\",\n");
            i = i + 1;
        }
        proof {
            assert(ups@.subrange(0, ups@.len() as int) =~= ups@);
        }
        out.append("    },\n");
    }
}

/// Speed, health, sides, factors, addons and the flags block.
pub open spec fn body_onto(pre: Seq<char>, t: TankText) -> Seq<char> {
    dec_onto(
        dec_onto(
            dec_onto(
                dec_onto(pre + "    speed = 1,\n"@ + "    maxHealth = "@, t.max_health) + ",\n"@
                    + "    sides = "@,
                t.sides,
            ) + ",\n"@ + "    fieldFactor = "@ + t.field_factor@ + ",\n"@ + "    absorbtionFactor = "@
                + t.absorbtion_factor@ + ",\n"@ + "    preAddon = "@,
            t.pre_addon,
        ) + ",\n"@ + "    postAddon = "@,
        t.post_addon,
    ) + ",\n"@ + "    flags = {\n"@ + "        invisibility = "@ + bool_text(t.invisibility) + ",\n"@
        + "        zoomAbility = "@ + bool_text(t.zoom_ability) + ",\n"@ + "        canShoot = "@
        + bool_text(t.can_shoot) + ",\n"@ + "        devOnly = "@ + bool_text(t.dev_only) + ",\n"@
        + "    },\n"@
}

fn push_body(out: &mut String, t: &TankText)
    ensures
        final(out)@ == body_onto(old(out)@, *t),
{
    out.append("    speed = 1,\n");
    out.append("    maxHealth = ");
    push_dec(out, t.max_health);
    out.append(",\n");
    out.append("    sides = ");
    push_dec(out, t.sides);
    out.append(",\n");
    out.append("    fieldFactor = ");
    out.append(t.field_factor.as_str());
    out.append(",\n");
    out.append("    absorbtionFactor = ");
    out.append(t.absorbtion_factor.as_str());
    out.append(",\n");
    out.append("    preAddon = ");
    push_dec(out, t.pre_addon);
    out.append(",\n");
    out.append("    postAddon = ");
    push_dec(out, t.post_addon);
    out.append(",\n");
    out.append("    flags = {\n");
    out.append("        invisibility = ");
    push_bool(out, t.invisibility);
    out.append(",\n");
    out.append("        zoomAbility = ");
    push_bool(out, t.zoom_ability);
    out.append(",\n");
    out.append("        canShoot = ");
    push_bool(out, t.can_shoot);
    out.append(",\n");
    out.append("        devOnly = ");
    push_bool(out, t.dev_only);
    out.append(",\n");
    out.append("    },\n");
}

/// One stat line.
pub open spec fn stat_onto(pre: Seq<char>, s: StatText) -> Seq<char> {
    dec_onto(pre + "        { name = \""@ + s.name@ + "\", max = "@, s.max) + " },\n"@
}

/// One stat line per entry of `stats`.
pub open spec fn stat_lines_onto(pre: Seq<char>, stats: Seq<StatText>) -> Seq<char>
    decreases stats.len(),
{
    if stats.len() == 0 {
        pre
    } else {
        stat_onto(stat_lines_onto(pre, stats.drop_last()), stats.last())
    }
}

fn push_stats(out: &mut String, stats: &Vec<StatText>)
    ensures
        final(out)@ == stat_lines_onto(old(out)@ + "    stats = {\n"@, stats@) + "    },\n"@,
{
    out.append("    stats = {\n");
    let ghost start = out@;
    let mut i: usize = 0;
    while i < stats.len()
        invariant
            i <= stats@.len(),
            out@ == stat_lines_onto(start, stats@.subrange(0, i as int)),
        decreases stats.len() - i,
    {
        proof {
            assert(stats@.subrange(0, i + 1).drop_last() =~= stats@.subrange(0, i as int));
        }
        out.append("        { name = \"");
        out.append(stats[i].name.as_str());
        out.append("\", max = ");
        push_dec(out, stats[i].max);
        out.append(" },\n");
        i = i + 1;
    }
    proof {
        assert(stats@.subrange(0, stats@.len() as int) =~= stats@);
    }
    out.append("    },\n");
}

/// A barrel block, up to its drone count.
pub open spec fn barrel_top_onto(pre: Seq<char>, b: BarrelText) -> Seq<char> {
    pre + "        {\n"@ + "            x = 0,\n"@ + "            y = "@ + b.y@ + ",\n"@
        + "            angle = "@ + b.angle@ + ",\n"@ + "            width = "@ + b.width@ + ",\n"@
        + "            length = "@ + b.length@ + ",\n"@ + "            delay = "@ + b.delay@ + ",\n"@
        + "            reload = "@ + b.reload@ + ",\n"@ + "            recoil = "@ + b.recoil@ + ",\n"@
        + "            isTrapezoid = "@ + bool_text(b.is_trapezoid) + ",\n"@
        + "            trapezoidDirection = "@ + b.trapezoid_direction@ + ",\n"@
        + "            addon = "@ + b.addon@ + ",\n"@
}

/// The drone count line, when there is one.
pub open spec fn drones_onto(pre: Seq<char>, b: BarrelText) -> Seq<char> {
    match b.drone_count {
        Some(n) => dec_onto(pre + "            droneCount = "@, n) + ",\n"@,
        None => pre,
    }
}

/// The bullet block that closes a barrel.
pub open spec fn barrel_bullet_onto(pre: Seq<char>, b: BarrelText) -> Seq<char> {
    pre + "            bullet = {\n"@ + "                type = \""@ + b.bullet_type@ + "\",\n"@
        + "                health = "@ + b.health@ + ",\n"@ + "                damage = "@ + b.damage@
        + ",\n"@ + "                speed = "@ + b.speed@ + ",\n"@ + "                scatterRate = "@
        + b.scatter_rate@ + ",\n"@ + "                lifeLength = "@ + b.life_length@ + ",\n"@
        + "                absorbtionFactor = "@ + b.absorbtion_factor@ + ",\n"@
        + "                sizeRatio = "@ + b.size_ratio@ + ",\n"@ + "            },\n"@ + "        },\n"@
}

/// A whole barrel block.
pub open spec fn barrel_onto(pre: Seq<char>, b: BarrelText) -> Seq<char> {
    barrel_bullet_onto(drones_onto(barrel_top_onto(pre, b), b), b)
}

fn push_barrel(out: &mut String, b: &BarrelText)
    ensures
        final(out)@ == barrel_onto(old(out)@, *b),
{
    out.append("        {\n");
    out.append("            x = 0,\n");
    out.append("            y = ");
    out.append(b.y.as_str());
    out.append(",\n");
    out.append("            angle = ");
    out.append(b.angle.as_str());
    out.append(",\n");
    out.append("            width = ");
    out.append(b.width.as_str());
    out.append(",\n");
    out.append("            length = ");
    out.append(b.length.as_str());
    out.append(",\n");
    out.append("            delay = ");
    out.append(b.delay.as_str());
    out.append(",\n");
    out.append("            reload = ");
    out.append(b.reload.as_str());
    out.append(",\n");
    out.append("            recoil = ");
    out.append(b.recoil.as_str());
    out.append(",\n");
    out.append("            isTrapezoid = ");
    push_bool(out, b.is_trapezoid);
    out.append(",\n");
    out.append("            trapezoidDirection = ");
    out.append(b.trapezoid_direction.as_str());
    out.append(",\n");
    out.append("            addon = ");
    out.append(b.addon.as_str());
    out.append(",\n");
    match b.drone_count {
        Some(n) => {
            out.append("            droneCount = ");
            push_dec(out, n);
            out.append(",\n");
        },
        None => {},
    }
    out.append("            bullet = {\n");
    out.append("                type = \"");
    out.append(b.bullet_type.as_str());
    out.append("\",\n");
    out.append("                health = ");
    out.append(b.health.as_str());
    out.append(",\n");
    out.append("                damage = ");
    out.append(b.damage.as_str());
    out.append(",\n");
    out.append("                speed = ");
    out.append(b.speed.as_str());
    out.append(",\n");
    out.append("                scatterRate = ");
    out.append(b.scatter_rate.as_str());
    out.append(",\n");
    out.append("                lifeLength = ");
    out.append(b.life_length.as_str());
    out.append(",\n");
    out.append("                absorbtionFactor = ");
    out.append(b.absorbtion_factor.as_str());
    out.append(",\n");
    out.append("                sizeRatio = ");
    out.append(b.size_ratio.as_str());
    out.append(",\n");
    out.append("            },\n");
    out.append("        },\n");
}

/// One barrel block per entry of `barrels`.
pub open spec fn barrels_onto(pre: Seq<char>, barrels: Seq<BarrelText>) -> Seq<char>
    decreases barrels.len(),
{
    if barrels.len() == 0 {
        pre
    } else {
        barrel_onto(barrels_onto(pre, barrels.drop_last()), barrels.last())
    }
}

fn push_barrels(out: &mut String, barrels: &Vec<BarrelText>)
    ensures
        final(out)@ == barrels_onto(old(out)@ + "    barrels = {\n"@, barrels@) + "    },\n"@,
{
    out.append("    barrels = {\n");
    let ghost start = out@;
    let mut i: usize = 0;
    while i < barrels.len()
        invariant
            i <= barrels@.len(),
            out@ == barrels_onto(start, barrels@.subrange(0, i as int)),
        decreases barrels.len() - i,
    {
        proof {
            assert(barrels@.subrange(0, i + 1).drop_last() =~= barrels@.subrange(0, i as int));
        }
        push_barrel(out, &barrels[i]);
        i = i + 1;
    }
    proof {
        assert(barrels@.subrange(0, barrels@.len() as int) =~= barrels@);
    }
    out.append("    },\n");
}

/// The script file for tank `t`, whose upgrades are the scripts named in
/// `upgrades`: header, upgrade list, body and flags, stats, barrels, and
/// an `onShoot` hook left to fill in.
pub open spec fn tank_script_spec(t: TankText, upgrades: Seq<String>) -> Seq<char> {
    barrels_onto(
        stat_lines_onto(
            body_onto(upgrades_onto(header_onto(Seq::empty(), t), upgrades), t) + "    stats = {\n"@,
            t.stats@,
        ) + "    },\n"@ + "    barrels = {\n"@,
        t.barrels@,
    ) + "    },\n"@ + "    onShoot = function(player)\n"@ + "        -- TO"@ + "DO\n"@ + "    end,\n"@ + "}\n"@
}

/// Writes the script file for tank `t` with the given upgrade names.
pub fn render_tank_script(t: &TankText, upgrades: &Vec<String>) -> (script: String)
    ensures
        script@ == tank_script_spec(*t, upgrades@),
{
    let mut out = String::new();
    push_header(&mut out, t);
    push_upgrades(&mut out, upgrades);
    push_body(&mut out, t);
    push_stats(&mut out, &t.stats);
    push_barrels(&mut out, &t.barrels);
    out.append("    onShoot = function(player)\n");
    out.append("        -- TO");
    out.append("DO\n");
    out.append("    end,\n");
    out.append("}\n");
    out
}

/// Whether `line` occurs in `s` as a contiguous run.
pub open spec fn has_line(s: Seq<char>, line: Seq<char>) -> bool {
    exists|i: int| 0 <= i && i + line.len() <= s.len() && #[trigger] s.subrange(i, i + line.len()) == line
}

/// Whether `s` begins with `p`.
pub open spec fn starts_with(s: Seq<char>, p: Seq<char>) -> bool {
    p.len() <= s.len() && s.subrange(0, p.len() as int) == p
}

/// `n` in decimal.
pub open spec fn dec_text(n: u32) -> Seq<char> {
    dec_onto(Seq::empty(), n)
}

proof fn lemma_line_ends(a: Seq<char>, k: Seq<char>, v: Seq<char>, c: Seq<char>)
    ensures
        has_line(a + k + v + c, k + v + c),
{
    let s = a + k + v + c;
    let l = k + v + c;
    assert(s.subrange(a.len() as int, (a.len() + l.len()) as int) =~= l);
}

proof fn lemma_line_in_prefix(p: Seq<char>, s: Seq<char>, l: Seq<char>)
    requires
        has_line(p, l),
        starts_with(s, p),
    ensures
        has_line(s, l),
{
    let i = choose|i: int| 0 <= i && i + l.len() <= p.len() && #[trigger] p.subrange(i, i + l.len()) == l;
    assert(s.subrange(i, i + l.len()) =~= p.subrange(i, i + l.len()));
}

proof fn lemma_starts_trans(a: Seq<char>, b: Seq<char>, c: Seq<char>)
    requires
        starts_with(b, a),
        starts_with(c, b),
    ensures
        starts_with(c, a),
{
    assert(c.subrange(0, a.len() as int) =~= b.subrange(0, a.len() as int));
}

proof fn lemma_starts_add(a: Seq<char>, r: Seq<char>)
    ensures
        starts_with(a + r, a),
{
    assert((a + r).subrange(0, a.len() as int) =~= a);
}

proof fn lemma_dec_split(p: Seq<char>, n: u32)
    ensures
        dec_onto(p, n) == p + dec_text(n),
    decreases n,
{
    if n >= 10 {
        lemma_dec_split(p, n / 10);
        lemma_dec_split(Seq::empty(), n / 10);
        assert(Seq::<char>::empty() + dec_text(n / 10) =~= dec_text(n / 10));
        assert(dec_onto(p, n) =~= p + dec_text(n));
    } else {
        assert(dec_onto(p, n) =~= p + dec_text(n));
    }
}

proof fn lemma_dec_starts(p: Seq<char>, n: u32)
    ensures
        starts_with(dec_onto(p, n), p),
{
    lemma_dec_split(p, n);
    lemma_starts_add(p, dec_text(n));
}
/// Every field of barrel `b` written under its own key in `s`: each
/// position, size and timing value, the trapezoid flag, the drone count (if
/// any) and every bullet value.
pub open spec fn barrel_lines_written(s: Seq<char>, b: BarrelText) -> bool {
    &&& has_line(s, "            y = "@ + b.y@ + ",\n"@)
    &&& has_line(s, "            angle = "@ + b.angle@ + ",\n"@)
    &&& has_line(s, "            width = "@ + b.width@ + ",\n"@)
    &&& has_line(s, "            length = "@ + b.length@ + ",\n"@)
    &&& has_line(s, "            delay = "@ + b.delay@ + ",\n"@)
    &&& has_line(s, "            reload = "@ + b.reload@ + ",\n"@)
    &&& has_line(s, "            recoil = "@ + b.recoil@ + ",\n"@)
    &&& has_line(s, "            isTrapezoid = "@ + bool_text(b.is_trapezoid) + ",\n"@)
    &&& has_line(s, "            trapezoidDirection = "@ + b.trapezoid_direction@ + ",\n"@)
    &&& has_line(s, "            addon = "@ + b.addon@ + ",\n"@)
    &&& has_line(s, "                type = \""@ + b.bullet_type@ + "\",\n"@)
    &&& has_line(s, "                health = "@ + b.health@ + ",\n"@)
    &&& has_line(s, "                damage = "@ + b.damage@ + ",\n"@)
    &&& has_line(s, "                speed = "@ + b.speed@ + ",\n"@)
    &&& has_line(s, "                scatterRate = "@ + b.scatter_rate@ + ",\n"@)
    &&& has_line(s, "                lifeLength = "@ + b.life_length@ + ",\n"@)
    &&& has_line(s, "                absorbtionFactor = "@ + b.absorbtion_factor@ + ",\n"@)
    &&& has_line(s, "                sizeRatio = "@ + b.size_ratio@ + ",\n"@)
    &&& match b.drone_count {
        Some(n) => has_line(s, "            droneCount = "@ + dec_text(n) + ",\n"@),
        None => true,
    }
}

proof fn lemma_barrel_lines_prefix(s: Seq<char>, t: Seq<char>, b: BarrelText)
    requires
        barrel_lines_written(s, b),
        starts_with(t, s),
    ensures
        barrel_lines_written(t, b),
{
    lemma_line_in_prefix(s, t, "            y = "@ + b.y@ + ",\n"@);
    lemma_line_in_prefix(s, t, "            angle = "@ + b.angle@ + ",\n"@);
    lemma_line_in_prefix(s, t, "            width = "@ + b.width@ + ",\n"@);
    lemma_line_in_prefix(s, t, "            length = "@ + b.length@ + ",\n"@);
    lemma_line_in_prefix(s, t, "            delay = "@ + b.delay@ + ",\n"@);
    lemma_line_in_prefix(s, t, "            reload = "@ + b.reload@ + ",\n"@);
    lemma_line_in_prefix(s, t, "            recoil = "@ + b.recoil@ + ",\n"@);
    lemma_line_in_prefix(s, t, "            isTrapezoid = "@ + bool_text(b.is_trapezoid) + ",\n"@);
    lemma_line_in_prefix(s, t, "            trapezoidDirection = "@ + b.trapezoid_direction@ + ",\n"@);
    lemma_line_in_prefix(s, t, "            addon = "@ + b.addon@ + ",\n"@);
    lemma_line_in_prefix(s, t, "                type = \""@ + b.bullet_type@ + "\",\n"@);
    lemma_line_in_prefix(s, t, "                health = "@ + b.health@ + ",\n"@);
    lemma_line_in_prefix(s, t, "                damage = "@ + b.damage@ + ",\n"@);
    lemma_line_in_prefix(s, t, "                speed = "@ + b.speed@ + ",\n"@);
    lemma_line_in_prefix(s, t, "                scatterRate = "@ + b.scatter_rate@ + ",\n"@);
    lemma_line_in_prefix(s, t, "                lifeLength = "@ + b.life_length@ + ",\n"@);
    lemma_line_in_prefix(s, t, "                absorbtionFactor = "@ + b.absorbtion_factor@ + ",\n"@);
    lemma_line_in_prefix(s, t, "                sizeRatio = "@ + b.size_ratio@ + ",\n"@);
    if let Some(n) = b.drone_count {
        lemma_line_in_prefix(s, t, "            droneCount = "@ + dec_text(n) + ",\n"@);
    }
}

proof fn lemma_top_lines_0(pre: Seq<char>, b: BarrelText)
    ensures
        has_line(barrel_top_onto(pre, b), "            y = "@ + b.y@ + ",\n"@),
{
    lemma_line_ends(pre + "        {\n"@ + "            x = 0,\n"@, "            y = "@, b.y@, ",\n"@);
    lemma_starts_chain_lemma_top_lines_0(pre, b);
    lemma_line_in_prefix(pre + "        {\n"@ + "            x = 0,\n"@ + "            y = "@ + b.y@ + ",\n"@, barrel_top_onto(pre, b), "            y = "@ + b.y@ + ",\n"@);
}

proof fn lemma_starts_chain_lemma_top_lines_0(pre: Seq<char>, b: BarrelText)
    ensures
        starts_with(barrel_top_onto(pre, b), pre + "        {\n"@ + "            x = 0,\n"@ + "            y = "@ + b.y@ + ",\n"@),
{
    assert(barrel_top_onto(pre, b).subrange(0, (pre + "        {\n"@ + "            x = 0,\n"@ + "            y = "@ + b.y@ + ",\n"@).len() as int) =~= pre + "        {\n"@ + "            x = 0,\n"@ + "            y = "@ + b.y@ + ",\n"@);
}

proof fn lemma_top_lines_1(pre: Seq<char>, b: BarrelText)
    ensures
        has_line(barrel_top_onto(pre, b), "            angle = "@ + b.angle@ + ",\n"@),
{
    lemma_line_ends(pre + "        {\n"@ + "            x = 0,\n"@ + "            y = "@ + b.y@ + ",\n"@, "            angle = "@, b.angle@, ",\n"@);
    lemma_starts_chain_lemma_top_lines_1(pre, b);
    lemma_line_in_prefix(pre + "        {\n"@ + "            x = 0,\n"@ + "            y = "@ + b.y@ + ",\n"@ + "            angle = "@ + b.angle@ + ",\n"@, barrel_top_onto(pre, b), "            angle = "@ + b.angle@ + ",\n"@);
}

proof fn lemma_starts_chain_lemma_top_lines_1(pre: Seq<char>, b: BarrelText)
    ensures
        starts_with(barrel_top_onto(pre, b), pre + "        {\n"@ + "            x = 0,\n"@ + "            y = "@ + b.y@ + ",\n"@ + "            angle = "@ + b.angle@ + ",\n"@),
{
    assert(barrel_top_onto(pre, b).subrange(0, (pre + "        {\n"@ + "            x = 0,\n"@ + "            y = "@ + b.y@ + ",\n"@ + "            angle = "@ + b.angle@ + ",\n"@).len() as int) =~= pre + "        {\n"@ + "            x = 0,\n"@ + "            y = "@ + b.y@ + ",\n"@ + "            angle = "@ + b.angle@ + ",\n"@);
}

proof fn lemma_top_lines_2(pre: Seq<char>, b: BarrelText)
    ensures
        has_line(barrel_top_onto(pre, b), "            width = "@ + b.width@ + ",\n"@),
{
    lemma_line_ends(pre + "        {\n"@ + "            x = 0,\n"@ + "            y = "@ + b.y@ + ",\n"@ + "            angle = "@ + b.angle@ + ",\n"@, "            width = "@, b.width@, ",\n"@);
    lemma_starts_chain_lemma_top_lines_2(pre, b);
    lemma_line_in_prefix(pre + "        {\n"@ + "            x = 0,\n"@ + "            y = "@ + b.y@ + ",\n"@ + "            angle = "@ + b.angle@ + ",\n"@ + "            width = "@ + b.width@ + ",\n"@, barrel_top_onto(pre, b), "            width = "@ + b.width@ + ",\n"@);
}

proof fn lemma_starts_chain_lemma_top_lines_2(pre: Seq<char>, b: BarrelText)
    ensures
        starts_with(barrel_top_onto(pre, b), pre + "        {\n"@ + "            x = 0,\n"@ + "            y = "@ + b.y@ + ",\n"@ + "            angle = "@ + b.angle@ + ",\n"@ + "            width = "@ + b.width@ + ",\n"@),
{
    assert(barrel_top_onto(pre, b).subrange(0, (pre + "        {\n"@ + "            x = 0,\n"@ + "            y = "@ + b.y@ + ",\n"@ + "            angle = "@ + b.angle@ + ",\n"@ + "            width = "@ + b.width@ + ",\n"@).len() as int) =~= pre + "        {\n"@ + "            x = 0,\n"@ + "            y = "@ + b.y@ + ",\n"@ + "            angle = "@ + b.angle@ + ",\n"@ + "            width = "@ + b.width@ + ",\n"@);
}

proof fn lemma_top_lines_3(pre: Seq<char>, b: BarrelText)
    ensures
        has_line(barrel_top_onto(pre, b), "            length = "@ + b.length@ + ",\n"@),
{
    lemma_line_ends(pre + "        {\n"@ + "            x = 0,\n"@ + "            y = "@ + b.y@ + ",\n"@ + "            angle = "@ + b.angle@ + ",\n"@ + "            width = "@ + b.width@ + ",\n"@, "            length = "@, b.length@, ",\n"@);
    lemma_starts_chain_lemma_top_lines_3(pre, b);
    lemma_line_in_prefix(pre + "        {\n"@ + "            x = 0,\n"@ + "            y = "@ + b.y@ + ",\n"@ + "            angle = "@ + b.angle@ + ",\n"@ + "            width = "@ + b.width@ + ",\n"@ + "            length = "@ + b.length@ + ",\n"@, barrel_top_onto(pre, b), "            length = "@ + b.length@ + ",\n"@);
}

proof fn lemma_starts_chain_lemma_top_lines_3(pre: Seq<char>, b: BarrelText)
    ensures
        starts_with(barrel_top_onto(pre, b), pre + "        {\n"@ + "            x = 0,\n"@ + "            y = "@ + b.y@ + ",\n"@ + "            angle = "@ + b.angle@ + ",\n"@ + "            width = "@ + b.width@ + ",\n"@ + "            length = "@ + b.length@ + ",\n"@),
{
    assert(barrel_top_onto(pre, b).subrange(0, (pre + "        {\n"@ + "            x = 0,\n"@ + "            y = "@ + b.y@ + ",\n"@ + "            angle = "@ + b.angle@ + ",\n"@ + "            width = "@ + b.width@ + ",\n"@ + "            length = "@ + b.length@ + ",\n"@).len() as int) =~= pre + "        {\n"@ + "            x = 0,\n"@ + "            y = "@ + b.y@ + ",\n"@ + "            angle = "@ + b.angle@ + ",\n"@ + "            width = "@ + b.width@ + ",\n"@ + "            length = "@ + b.length@ + ",\n"@);
}

proof fn lemma_top_lines_4(pre: Seq<char>, b: BarrelText)
    ensures
        has_line(barrel_top_onto(pre, b), "            delay = "@ + b.delay@ + ",\n"@),
{
    lemma_line_ends(pre + "        {\n"@ + "            x = 0,\n"@ + "            y = "@ + b.y@ + ",\n"@ + "            angle = "@ + b.angle@ + ",\n"@ + "            width = "@ + b.width@ + ",\n"@ + "            length = "@ + b.length@ + ",\n"@, "            delay = "@, b.delay@, ",\n"@);
    lemma_starts_chain_lemma_top_lines_4(pre, b);
    lemma_line_in_prefix(pre + "        {\n"@ + "            x = 0,\n"@ + "            y = "@ + b.y@ + ",\n"@ + "            angle = "@ + b.angle@ + ",\n"@ + "            width = "@ + b.width@ + ",\n"@ + "            length = "@ + b.length@ + ",\n"@ + "            delay = "@ + b.delay@ + ",\n"@, barrel_top_onto(pre, b), "            delay = "@ + b.delay@ + ",\n"@);
}

proof fn lemma_starts_chain_lemma_top_lines_4(pre: Seq<char>, b: BarrelText)
    ensures
        starts_with(barrel_top_onto(pre, b), pre + "        {\n"@ + "            x = 0,\n"@ + "            y = "@ + b.y@ + ",\n"@ + "            angle = "@ + b.angle@ + ",\n"@ + "            width = "@ + b.width@ + ",\n"@ + "            length = "@ + b.length@ + ",\n"@ + "            delay = "@ + b.delay@ + ",\n"@),
{
    assert(barrel_top_onto(pre, b).subrange(0, (pre + "        {\n"@ + "            x = 0,\n"@ + "            y = "@ + b.y@ + ",\n"@ + "            angle = "@ + b.angle@ + ",\n"@ + "            width = "@ + b.width@ + ",\n"@ + "            length = "@ + b.length@ + ",\n"@ + "            delay = "@ + b.delay@ + ",\n"@).len() as int) =~= pre + "        {\n"@ + "            x = 0,\n"@ + "            y = "@ + b.y@ + ",\n"@ + "            angle = "@ + b.angle@ + ",\n"@ + "            width = "@ + b.width@ + ",\n"@ + "            length = "@ + b.length@ + ",\n"@ + "            delay = "@ + b.delay@ + ",\n"@);
}

proof fn lemma_top_lines_5(pre: Seq<char>, b: BarrelText)
    ensures
        has_line(barrel_top_onto(pre, b), "            reload = "@ + b.reload@ + ",\n"@),
{
    lemma_line_ends(pre + "        {\n"@ + "            x = 0,\n"@ + "            y = "@ + b.y@ + ",\n"@ + "            angle = "@ + b.angle@ + ",\n"@ + "            width = "@ + b.width@ + ",\n"@ + "            length = "@ + b.length@ + ",\n"@ + "            delay = "@ + b.delay@ + ",\n"@, "            reload = "@, b.reload@, ",\n"@);
    lemma_starts_chain_lemma_top_lines_5(pre, b);
    lemma_line_in_prefix(pre + "        {\n"@ + "            x = 0,\n"@ + "            y = "@ + b.y@ + ",\n"@ + "            angle = "@ + b.angle@ + ",\n"@ + "            width = "@ + b.width@ + ",\n"@ + "            length = "@ + b.length@ + ",\n"@ + "            delay = "@ + b.delay@ + ",\n"@ + "            reload = "@ + b.reload@ + ",\n"@, barrel_top_onto(pre, b), "            reload = "@ + b.reload@ + ",\n"@);
}

proof fn lemma_starts_chain_lemma_top_lines_5(pre: Seq<char>, b: BarrelText)
    ensures
        starts_with(barrel_top_onto(pre, b), pre + "        {\n"@ + "            x = 0,\n"@ + "            y = "@ + b.y@ + ",\n"@ + "            angle = "@ + b.angle@ + ",\n"@ + "            width = "@ + b.width@ + ",\n"@ + "            length = "@ + b.length@ + ",\n"@ + "            delay = "@ + b.delay@ + ",\n"@ + "            reload = "@ + b.reload@ + ",\n"@),
{
    assert(barrel_top_onto(pre, b).subrange(0, (pre + "        {\n"@ + "            x = 0,\n"@ + "            y = "@ + b.y@ + ",\n"@ + "            angle = "@ + b.angle@ + ",\n"@ + "            width = "@ + b.width@ + ",\n"@ + "            length = "@ + b.length@ + ",\n"@ + "            delay = "@ + b.delay@ + ",\n"@ + "            reload = "@ + b.reload@ + ",\n"@).len() as int) =~= pre + "        {\n"@ + "            x = 0,\n"@ + "            y = "@ + b.y@ + ",\n"@ + "            angle = "@ + b.angle@ + ",\n"@ + "            width = "@ + b.width@ + ",\n"@ + "            length = "@ + b.length@ + ",\n"@ + "            delay = "@ + b.delay@ + ",\n"@ + "            reload = "@ + b.reload@ + ",\n"@);
}

proof fn lemma_top_lines_6(pre: Seq<char>, b: BarrelText)
    ensures
        has_line(barrel_top_onto(pre, b), "            recoil = "@ + b.recoil@ + ",\n"@),
{
    lemma_line_ends(pre + "        {\n"@ + "            x = 0,\n"@ + "            y = "@ + b.y@ + ",\n"@ + "            angle = "@ + b.angle@ + ",\n"@ + "            width = "@ + b.width@ + ",\n"@ + "            length = "@ + b.length@ + ",\n"@ + "            delay = "@ + b.delay@ + ",\n"@ + "            reload = "@ + b.reload@ + ",\n"@, "            recoil = "@, b.recoil@, ",\n"@);
    lemma_starts_chain_lemma_top_lines_6(pre, b);
    lemma_line_in_prefix(pre + "        {\n"@ + "            x = 0,\n"@ + "            y = "@ + b.y@ + ",\n"@ + "            angle = "@ + b.angle@ + ",\n"@ + "            width = "@ + b.width@ + ",\n"@ + "            length = "@ + b.length@ + ",\n"@ + "            delay = "@ + b.delay@ + ",\n"@ + "            reload = "@ + b.reload@ + ",\n"@ + "            recoil = "@ + b.recoil@ + ",\n"@, barrel_top_onto(pre, b), "            recoil = "@ + b.recoil@ + ",\n"@);
}

proof fn lemma_starts_chain_lemma_top_lines_6(pre: Seq<char>, b: BarrelText)
    ensures
        starts_with(barrel_top_onto(pre, b), pre + "        {\n"@ + "            x = 0,\n"@ + "            y = "@ + b.y@ + ",\n"@ + "            angle = "@ + b.angle@ + ",\n"@ + "            width = "@ + b.width@ + ",\n"@ + "            length = "@ + b.length@ + ",\n"@ + "            delay = "@ + b.delay@ + ",\n"@ + "            reload = "@ + b.reload@ + ",\n"@ + "            recoil = "@ + b.recoil@ + ",\n"@),
{
    assert(barrel_top_onto(pre, b).subrange(0, (pre + "        {\n"@ + "            x = 0,\n"@ + "            y = "@ + b.y@ + ",\n"@ + "            angle = "@ + b.angle@ + ",\n"@ + "            width = "@ + b.width@ + ",\n"@ + "            length = "@ + b.length@ + ",\n"@ + "            delay = "@ + b.delay@ + ",\n"@ + "            reload = "@ + b.reload@ + ",\n"@ + "            recoil = "@ + b.recoil@ + ",\n"@).len() as int) =~= pre + "        {\n"@ + "            x = 0,\n"@ + "            y = "@ + b.y@ + ",\n"@ + "            angle = "@ + b.angle@ + ",\n"@ + "            width = "@ + b.width@ + ",\n"@ + "            length = "@ + b.length@ + ",\n"@ + "            delay = "@ + b.delay@ + ",\n"@ + "            reload = "@ + b.reload@ + ",\n"@ + "            recoil = "@ + b.recoil@ + ",\n"@);
}

proof fn lemma_top_lines_7(pre: Seq<char>, b: BarrelText)
    ensures
        has_line(barrel_top_onto(pre, b), "            isTrapezoid = "@ + bool_text(b.is_trapezoid) + ",\n"@),
{
    lemma_line_ends(pre + "        {\n"@ + "            x = 0,\n"@ + "            y = "@ + b.y@ + ",\n"@ + "            angle = "@ + b.angle@ + ",\n"@ + "            width = "@ + b.width@ + ",\n"@ + "            length = "@ + b.length@ + ",\n"@ + "            delay = "@ + b.delay@ + ",\n"@ + "            reload = "@ + b.reload@ + ",\n"@ + "            recoil = "@ + b.recoil@ + ",\n"@, "            isTrapezoid = "@, bool_text(b.is_trapezoid), ",\n"@);
    lemma_starts_chain_lemma_top_lines_7(pre, b);
    lemma_line_in_prefix(pre + "        {\n"@ + "            x = 0,\n"@ + "            y = "@ + b.y@ + ",\n"@ + "            angle = "@ + b.angle@ + ",\n"@ + "            width = "@ + b.width@ + ",\n"@ + "            length = "@ + b.length@ + ",\n"@ + "            delay = "@ + b.delay@ + ",\n"@ + "            reload = "@ + b.reload@ + ",\n"@ + "            recoil = "@ + b.recoil@ + ",\n"@ + "            isTrapezoid = "@ + bool_text(b.is_trapezoid) + ",\n"@, barrel_top_onto(pre, b), "            isTrapezoid = "@ + bool_text(b.is_trapezoid) + ",\n"@);
}

proof fn lemma_starts_chain_lemma_top_lines_7(pre: Seq<char>, b: BarrelText)
    ensures
        starts_with(barrel_top_onto(pre, b), pre + "        {\n"@ + "            x = 0,\n"@ + "            y = "@ + b.y@ + ",\n"@ + "            angle = "@ + b.angle@ + ",\n"@ + "            width = "@ + b.width@ + ",\n"@ + "            length = "@ + b.length@ + ",\n"@ + "            delay = "@ + b.delay@ + ",\n"@ + "            reload = "@ + b.reload@ + ",\n"@ + "            recoil = "@ + b.recoil@ + ",\n"@ + "            isTrapezoid = "@ + bool_text(b.is_trapezoid) + ",\n"@),
{
    assert(barrel_top_onto(pre, b).subrange(0, (pre + "        {\n"@ + "            x = 0,\n"@ + "            y = "@ + b.y@ + ",\n"@ + "            angle = "@ + b.angle@ + ",\n"@ + "            width = "@ + b.width@ + ",\n"@ + "            length = "@ + b.length@ + ",\n"@ + "            delay = "@ + b.delay@ + ",\n"@ + "            reload = "@ + b.reload@ + ",\n"@ + "            recoil = "@ + b.recoil@ + ",\n"@ + "            isTrapezoid = "@ + bool_text(b.is_trapezoid) + ",\n"@).len() as int) =~= pre + "        {\n"@ + "            x = 0,\n"@ + "            y = "@ + b.y@ + ",\n"@ + "            angle = "@ + b.angle@ + ",\n"@ + "            width = "@ + b.width@ + ",\n"@ + "            length = "@ + b.length@ + ",\n"@ + "            delay = "@ + b.delay@ + ",\n"@ + "            reload = "@ + b.reload@ + ",\n"@ + "            recoil = "@ + b.recoil@ + ",\n"@ + "            isTrapezoid = "@ + bool_text(b.is_trapezoid) + ",\n"@);
}

proof fn lemma_top_lines_8(pre: Seq<char>, b: BarrelText)
    ensures
        has_line(barrel_top_onto(pre, b), "            trapezoidDirection = "@ + b.trapezoid_direction@ + ",\n"@),
{
    lemma_line_ends(pre + "        {\n"@ + "            x = 0,\n"@ + "            y = "@ + b.y@ + ",\n"@ + "            angle = "@ + b.angle@ + ",\n"@ + "            width = "@ + b.width@ + ",\n"@ + "            length = "@ + b.length@ + ",\n"@ + "            delay = "@ + b.delay@ + ",\n"@ + "            reload = "@ + b.reload@ + ",\n"@ + "            recoil = "@ + b.recoil@ + ",\n"@ + "            isTrapezoid = "@ + bool_text(b.is_trapezoid) + ",\n"@, "            trapezoidDirection = "@, b.trapezoid_direction@, ",\n"@);
    lemma_starts_chain_lemma_top_lines_8(pre, b);
    lemma_line_in_prefix(pre + "        {\n"@ + "            x = 0,\n"@ + "            y = "@ + b.y@ + ",\n"@ + "            angle = "@ + b.angle@ + ",\n"@ + "            width = "@ + b.width@ + ",\n"@ + "            length = "@ + b.length@ + ",\n"@ + "            delay = "@ + b.delay@ + ",\n"@ + "            reload = "@ + b.reload@ + ",\n"@ + "            recoil = "@ + b.recoil@ + ",\n"@ + "            isTrapezoid = "@ + bool_text(b.is_trapezoid) + ",\n"@ + "            trapezoidDirection = "@ + b.trapezoid_direction@ + ",\n"@, barrel_top_onto(pre, b), "            trapezoidDirection = "@ + b.trapezoid_direction@ + ",\n"@);
}

proof fn lemma_starts_chain_lemma_top_lines_8(pre: Seq<char>, b: BarrelText)
    ensures
        starts_with(barrel_top_onto(pre, b), pre + "        {\n"@ + "            x = 0,\n"@ + "            y = "@ + b.y@ + ",\n"@ + "            angle = "@ + b.angle@ + ",\n"@ + "            width = "@ + b.width@ + ",\n"@ + "            length = "@ + b.length@ + ",\n"@ + "            delay = "@ + b.delay@ + ",\n"@ + "            reload = "@ + b.reload@ + ",\n"@ + "            recoil = "@ + b.recoil@ + ",\n"@ + "            isTrapezoid = "@ + bool_text(b.is_trapezoid) + ",\n"@ + "            trapezoidDirection = "@ + b.trapezoid_direction@ + ",\n"@),
{
    assert(barrel_top_onto(pre, b).subrange(0, (pre + "        {\n"@ + "            x = 0,\n"@ + "            y = "@ + b.y@ + ",\n"@ + "            angle = "@ + b.angle@ + ",\n"@ + "            width = "@ + b.width@ + ",\n"@ + "            length = "@ + b.length@ + ",\n"@ + "            delay = "@ + b.delay@ + ",\n"@ + "            reload = "@ + b.reload@ + ",\n"@ + "            recoil = "@ + b.recoil@ + ",\n"@ + "            isTrapezoid = "@ + bool_text(b.is_trapezoid) + ",\n"@ + "            trapezoidDirection = "@ + b.trapezoid_direction@ + ",\n"@).len() as int) =~= pre + "        {\n"@ + "            x = 0,\n"@ + "            y = "@ + b.y@ + ",\n"@ + "            angle = "@ + b.angle@ + ",\n"@ + "            width = "@ + b.width@ + ",\n"@ + "            length = "@ + b.length@ + ",\n"@ + "            delay = "@ + b.delay@ + ",\n"@ + "            reload = "@ + b.reload@ + ",\n"@ + "            recoil = "@ + b.recoil@ + ",\n"@ + "            isTrapezoid = "@ + bool_text(b.is_trapezoid) + ",\n"@ + "            trapezoidDirection = "@ + b.trapezoid_direction@ + ",\n"@);
}

proof fn lemma_top_lines_9(pre: Seq<char>, b: BarrelText)
    ensures
        has_line(barrel_top_onto(pre, b), "            addon = "@ + b.addon@ + ",\n"@),
{
    lemma_line_ends(pre + "        {\n"@ + "            x = 0,\n"@ + "            y = "@ + b.y@ + ",\n"@ + "            angle = "@ + b.angle@ + ",\n"@ + "            width = "@ + b.width@ + ",\n"@ + "            length = "@ + b.length@ + ",\n"@ + "            delay = "@ + b.delay@ + ",\n"@ + "            reload = "@ + b.reload@ + ",\n"@ + "            recoil = "@ + b.recoil@ + ",\n"@ + "            isTrapezoid = "@ + bool_text(b.is_trapezoid) + ",\n"@ + "            trapezoidDirection = "@ + b.trapezoid_direction@ + ",\n"@, "            addon = "@, b.addon@, ",\n"@);
    lemma_starts_chain_lemma_top_lines_9(pre, b);
    lemma_line_in_prefix(pre + "        {\n"@ + "            x = 0,\n"@ + "            y = "@ + b.y@ + ",\n"@ + "            angle = "@ + b.angle@ + ",\n"@ + "            width = "@ + b.width@ + ",\n"@ + "            length = "@ + b.length@ + ",\n"@ + "            delay = "@ + b.delay@ + ",\n"@ + "            reload = "@ + b.reload@ + ",\n"@ + "            recoil = "@ + b.recoil@ + ",\n"@ + "            isTrapezoid = "@ + bool_text(b.is_trapezoid) + ",\n"@ + "            trapezoidDirection = "@ + b.trapezoid_direction@ + ",\n"@ + "            addon = "@ + b.addon@ + ",\n"@, barrel_top_onto(pre, b), "            addon = "@ + b.addon@ + ",\n"@);
}

proof fn lemma_starts_chain_lemma_top_lines_9(pre: Seq<char>, b: BarrelText)
    ensures
        starts_with(barrel_top_onto(pre, b), pre + "        {\n"@ + "            x = 0,\n"@ + "            y = "@ + b.y@ + ",\n"@ + "            angle = "@ + b.angle@ + ",\n"@ + "            width = "@ + b.width@ + ",\n"@ + "            length = "@ + b.length@ + ",\n"@ + "            delay = "@ + b.delay@ + ",\n"@ + "            reload = "@ + b.reload@ + ",\n"@ + "            recoil = "@ + b.recoil@ + ",\n"@ + "            isTrapezoid = "@ + bool_text(b.is_trapezoid) + ",\n"@ + "            trapezoidDirection = "@ + b.trapezoid_direction@ + ",\n"@ + "            addon = "@ + b.addon@ + ",\n"@),
{
    assert(barrel_top_onto(pre, b).subrange(0, (pre + "        {\n"@ + "            x = 0,\n"@ + "            y = "@ + b.y@ + ",\n"@ + "            angle = "@ + b.angle@ + ",\n"@ + "            width = "@ + b.width@ + ",\n"@ + "            length = "@ + b.length@ + ",\n"@ + "            delay = "@ + b.delay@ + ",\n"@ + "            reload = "@ + b.reload@ + ",\n"@ + "            recoil = "@ + b.recoil@ + ",\n"@ + "            isTrapezoid = "@ + bool_text(b.is_trapezoid) + ",\n"@ + "            trapezoidDirection = "@ + b.trapezoid_direction@ + ",\n"@ + "            addon = "@ + b.addon@ + ",\n"@).len() as int) =~= pre + "        {\n"@ + "            x = 0,\n"@ + "            y = "@ + b.y@ + ",\n"@ + "            angle = "@ + b.angle@ + ",\n"@ + "            width = "@ + b.width@ + ",\n"@ + "            length = "@ + b.length@ + ",\n"@ + "            delay = "@ + b.delay@ + ",\n"@ + "            reload = "@ + b.reload@ + ",\n"@ + "            recoil = "@ + b.recoil@ + ",\n"@ + "            isTrapezoid = "@ + bool_text(b.is_trapezoid) + ",\n"@ + "            trapezoidDirection = "@ + b.trapezoid_direction@ + ",\n"@ + "            addon = "@ + b.addon@ + ",\n"@);
}

proof fn lemma_top_lines(pre: Seq<char>, b: BarrelText)
    ensures
        has_line(barrel_top_onto(pre, b), "            y = "@ + b.y@ + ",\n"@),
        has_line(barrel_top_onto(pre, b), "            angle = "@ + b.angle@ + ",\n"@),
        has_line(barrel_top_onto(pre, b), "            width = "@ + b.width@ + ",\n"@),
        has_line(barrel_top_onto(pre, b), "            length = "@ + b.length@ + ",\n"@),
        has_line(barrel_top_onto(pre, b), "            delay = "@ + b.delay@ + ",\n"@),
        has_line(barrel_top_onto(pre, b), "            reload = "@ + b.reload@ + ",\n"@),
        has_line(barrel_top_onto(pre, b), "            recoil = "@ + b.recoil@ + ",\n"@),
        has_line(barrel_top_onto(pre, b), "            isTrapezoid = "@ + bool_text(b.is_trapezoid) + ",\n"@),
        has_line(barrel_top_onto(pre, b), "            trapezoidDirection = "@ + b.trapezoid_direction@ + ",\n"@),
        has_line(barrel_top_onto(pre, b), "            addon = "@ + b.addon@ + ",\n"@),
        starts_with(barrel_top_onto(pre, b), pre),
{
    lemma_top_lines_0(pre, b);
    lemma_top_lines_1(pre, b);
    lemma_top_lines_2(pre, b);
    lemma_top_lines_3(pre, b);
    lemma_top_lines_4(pre, b);
    lemma_top_lines_5(pre, b);
    lemma_top_lines_6(pre, b);
    lemma_top_lines_7(pre, b);
    lemma_top_lines_8(pre, b);
    lemma_top_lines_9(pre, b);
    assert(barrel_top_onto(pre, b).subrange(0, pre.len() as int) =~= pre);
}

proof fn lemma_bullet_lines_0(pre: Seq<char>, b: BarrelText)
    ensures
        has_line(barrel_bullet_onto(pre, b), "                type = \""@ + b.bullet_type@ + "\",\n"@),
{
    lemma_line_ends(pre + "            bullet = {\n"@, "                type = \""@, b.bullet_type@, "\",\n"@);
    lemma_starts_chain_lemma_bullet_lines_0(pre, b);
    lemma_line_in_prefix(pre + "            bullet = {\n"@ + "                type = \""@ + b.bullet_type@ + "\",\n"@, barrel_bullet_onto(pre, b), "                type = \""@ + b.bullet_type@ + "\",\n"@);
}

proof fn lemma_starts_chain_lemma_bullet_lines_0(pre: Seq<char>, b: BarrelText)
    ensures
        starts_with(barrel_bullet_onto(pre, b), pre + "            bullet = {\n"@ + "                type = \""@ + b.bullet_type@ + "\",\n"@),
{
    assert(barrel_bullet_onto(pre, b).subrange(0, (pre + "            bullet = {\n"@ + "                type = \""@ + b.bullet_type@ + "\",\n"@).len() as int) =~= pre + "            bullet = {\n"@ + "                type = \""@ + b.bullet_type@ + "\",\n"@);
}

proof fn lemma_bullet_lines_1(pre: Seq<char>, b: BarrelText)
    ensures
        has_line(barrel_bullet_onto(pre, b), "                health = "@ + b.health@ + ",\n"@),
{
    lemma_line_ends(pre + "            bullet = {\n"@ + "                type = \""@ + b.bullet_type@ + "\",\n"@, "                health = "@, b.health@, ",\n"@);
    lemma_starts_chain_lemma_bullet_lines_1(pre, b);
    lemma_line_in_prefix(pre + "            bullet = {\n"@ + "                type = \""@ + b.bullet_type@ + "\",\n"@ + "                health = "@ + b.health@ + ",\n"@, barrel_bullet_onto(pre, b), "                health = "@ + b.health@ + ",\n"@);
}

proof fn lemma_starts_chain_lemma_bullet_lines_1(pre: Seq<char>, b: BarrelText)
    ensures
        starts_with(barrel_bullet_onto(pre, b), pre + "            bullet = {\n"@ + "                type = \""@ + b.bullet_type@ + "\",\n"@ + "                health = "@ + b.health@ + ",\n"@),
{
    assert(barrel_bullet_onto(pre, b).subrange(0, (pre + "            bullet = {\n"@ + "                type = \""@ + b.bullet_type@ + "\",\n"@ + "                health = "@ + b.health@ + ",\n"@).len() as int) =~= pre + "            bullet = {\n"@ + "                type = \""@ + b.bullet_type@ + "\",\n"@ + "                health = "@ + b.health@ + ",\n"@);
}

proof fn lemma_bullet_lines_2(pre: Seq<char>, b: BarrelText)
    ensures
        has_line(barrel_bullet_onto(pre, b), "                damage = "@ + b.damage@ + ",\n"@),
{
    lemma_line_ends(pre + "            bullet = {\n"@ + "                type = \""@ + b.bullet_type@ + "\",\n"@ + "                health = "@ + b.health@ + ",\n"@, "                damage = "@, b.damage@, ",\n"@);
    lemma_starts_chain_lemma_bullet_lines_2(pre, b);
    lemma_line_in_prefix(pre + "            bullet = {\n"@ + "                type = \""@ + b.bullet_type@ + "\",\n"@ + "                health = "@ + b.health@ + ",\n"@ + "                damage = "@ + b.damage@ + ",\n"@, barrel_bullet_onto(pre, b), "                damage = "@ + b.damage@ + ",\n"@);
}

proof fn lemma_starts_chain_lemma_bullet_lines_2(pre: Seq<char>, b: BarrelText)
    ensures
        starts_with(barrel_bullet_onto(pre, b), pre + "            bullet = {\n"@ + "                type = \""@ + b.bullet_type@ + "\",\n"@ + "                health = "@ + b.health@ + ",\n"@ + "                damage = "@ + b.damage@ + ",\n"@),
{
    assert(barrel_bullet_onto(pre, b).subrange(0, (pre + "            bullet = {\n"@ + "                type = \""@ + b.bullet_type@ + "\",\n"@ + "                health = "@ + b.health@ + ",\n"@ + "                damage = "@ + b.damage@ + ",\n"@).len() as int) =~= pre + "            bullet = {\n"@ + "                type = \""@ + b.bullet_type@ + "\",\n"@ + "                health = "@ + b.health@ + ",\n"@ + "                damage = "@ + b.damage@ + ",\n"@);
}

proof fn lemma_bullet_lines_3(pre: Seq<char>, b: BarrelText)
    ensures
        has_line(barrel_bullet_onto(pre, b), "                speed = "@ + b.speed@ + ",\n"@),
{
    lemma_line_ends(pre + "            bullet = {\n"@ + "                type = \""@ + b.bullet_type@ + "\",\n"@ + "                health = "@ + b.health@ + ",\n"@ + "                damage = "@ + b.damage@ + ",\n"@, "                speed = "@, b.speed@, ",\n"@);
    lemma_starts_chain_lemma_bullet_lines_3(pre, b);
    lemma_line_in_prefix(pre + "            bullet = {\n"@ + "                type = \""@ + b.bullet_type@ + "\",\n"@ + "                health = "@ + b.health@ + ",\n"@ + "                damage = "@ + b.damage@ + ",\n"@ + "                speed = "@ + b.speed@ + ",\n"@, barrel_bullet_onto(pre, b), "                speed = "@ + b.speed@ + ",\n"@);
}

proof fn lemma_starts_chain_lemma_bullet_lines_3(pre: Seq<char>, b: BarrelText)
    ensures
        starts_with(barrel_bullet_onto(pre, b), pre + "            bullet = {\n"@ + "                type = \""@ + b.bullet_type@ + "\",\n"@ + "                health = "@ + b.health@ + ",\n"@ + "                damage = "@ + b.damage@ + ",\n"@ + "                speed = "@ + b.speed@ + ",\n"@),
{
    assert(barrel_bullet_onto(pre, b).subrange(0, (pre + "            bullet = {\n"@ + "                type = \""@ + b.bullet_type@ + "\",\n"@ + "                health = "@ + b.health@ + ",\n"@ + "                damage = "@ + b.damage@ + ",\n"@ + "                speed = "@ + b.speed@ + ",\n"@).len() as int) =~= pre + "            bullet = {\n"@ + "                type = \""@ + b.bullet_type@ + "\",\n"@ + "                health = "@ + b.health@ + ",\n"@ + "                damage = "@ + b.damage@ + ",\n"@ + "                speed = "@ + b.speed@ + ",\n"@);
}

proof fn lemma_bullet_lines_4(pre: Seq<char>, b: BarrelText)
    ensures
        has_line(barrel_bullet_onto(pre, b), "                scatterRate = "@ + b.scatter_rate@ + ",\n"@),
{
    lemma_line_ends(pre + "            bullet = {\n"@ + "                type = \""@ + b.bullet_type@ + "\",\n"@ + "                health = "@ + b.health@ + ",\n"@ + "                damage = "@ + b.damage@ + ",\n"@ + "                speed = "@ + b.speed@ + ",\n"@, "                scatterRate = "@, b.scatter_rate@, ",\n"@);
    lemma_starts_chain_lemma_bullet_lines_4(pre, b);
    lemma_line_in_prefix(pre + "            bullet = {\n"@ + "                type = \""@ + b.bullet_type@ + "\",\n"@ + "                health = "@ + b.health@ + ",\n"@ + "                damage = "@ + b.damage@ + ",\n"@ + "                speed = "@ + b.speed@ + ",\n"@ + "                scatterRate = "@ + b.scatter_rate@ + ",\n"@, barrel_bullet_onto(pre, b), "                scatterRate = "@ + b.scatter_rate@ + ",\n"@);
}

proof fn lemma_starts_chain_lemma_bullet_lines_4(pre: Seq<char>, b: BarrelText)
    ensures
        starts_with(barrel_bullet_onto(pre, b), pre + "            bullet = {\n"@ + "                type = \""@ + b.bullet_type@ + "\",\n"@ + "                health = "@ + b.health@ + ",\n"@ + "                damage = "@ + b.damage@ + ",\n"@ + "                speed = "@ + b.speed@ + ",\n"@ + "                scatterRate = "@ + b.scatter_rate@ + ",\n"@),
{
    assert(barrel_bullet_onto(pre, b).subrange(0, (pre + "            bullet = {\n"@ + "                type = \""@ + b.bullet_type@ + "\",\n"@ + "                health = "@ + b.health@ + ",\n"@ + "                damage = "@ + b.damage@ + ",\n"@ + "                speed = "@ + b.speed@ + ",\n"@ + "                scatterRate = "@ + b.scatter_rate@ + ",\n"@).len() as int) =~= pre + "            bullet = {\n"@ + "                type = \""@ + b.bullet_type@ + "\",\n"@ + "                health = "@ + b.health@ + ",\n"@ + "                damage = "@ + b.damage@ + ",\n"@ + "                speed = "@ + b.speed@ + ",\n"@ + "                scatterRate = "@ + b.scatter_rate@ + ",\n"@);
}

proof fn lemma_bullet_lines_5(pre: Seq<char>, b: BarrelText)
    ensures
        has_line(barrel_bullet_onto(pre, b), "                lifeLength = "@ + b.life_length@ + ",\n"@),
{
    lemma_line_ends(pre + "            bullet = {\n"@ + "                type = \""@ + b.bullet_type@ + "\",\n"@ + "                health = "@ + b.health@ + ",\n"@ + "                damage = "@ + b.damage@ + ",\n"@ + "                speed = "@ + b.speed@ + ",\n"@ + "                scatterRate = "@ + b.scatter_rate@ + ",\n"@, "                lifeLength = "@, b.life_length@, ",\n"@);
    lemma_starts_chain_lemma_bullet_lines_5(pre, b);
    lemma_line_in_prefix(pre + "            bullet = {\n"@ + "                type = \""@ + b.bullet_type@ + "\",\n"@ + "                health = "@ + b.health@ + ",\n"@ + "                damage = "@ + b.damage@ + ",\n"@ + "                speed = "@ + b.speed@ + ",\n"@ + "                scatterRate = "@ + b.scatter_rate@ + ",\n"@ + "                lifeLength = "@ + b.life_length@ + ",\n"@, barrel_bullet_onto(pre, b), "                lifeLength = "@ + b.life_length@ + ",\n"@);
}

proof fn lemma_starts_chain_lemma_bullet_lines_5(pre: Seq<char>, b: BarrelText)
    ensures
        starts_with(barrel_bullet_onto(pre, b), pre + "            bullet = {\n"@ + "                type = \""@ + b.bullet_type@ + "\",\n"@ + "                health = "@ + b.health@ + ",\n"@ + "                damage = "@ + b.damage@ + ",\n"@ + "                speed = "@ + b.speed@ + ",\n"@ + "                scatterRate = "@ + b.scatter_rate@ + ",\n"@ + "                lifeLength = "@ + b.life_length@ + ",\n"@),
{
    assert(barrel_bullet_onto(pre, b).subrange(0, (pre + "            bullet = {\n"@ + "                type = \""@ + b.bullet_type@ + "\",\n"@ + "                health = "@ + b.health@ + ",\n"@ + "                damage = "@ + b.damage@ + ",\n"@ + "                speed = "@ + b.speed@ + ",\n"@ + "                scatterRate = "@ + b.scatter_rate@ + ",\n"@ + "                lifeLength = "@ + b.life_length@ + ",\n"@).len() as int) =~= pre + "            bullet = {\n"@ + "                type = \""@ + b.bullet_type@ + "\",\n"@ + "                health = "@ + b.health@ + ",\n"@ + "                damage = "@ + b.damage@ + ",\n"@ + "                speed = "@ + b.speed@ + ",\n"@ + "                scatterRate = "@ + b.scatter_rate@ + ",\n"@ + "                lifeLength = "@ + b.life_length@ + ",\n"@);
}

proof fn lemma_bullet_lines_6(pre: Seq<char>, b: BarrelText)
    ensures
        has_line(barrel_bullet_onto(pre, b), "                absorbtionFactor = "@ + b.absorbtion_factor@ + ",\n"@),
{
    lemma_line_ends(pre + "            bullet = {\n"@ + "                type = \""@ + b.bullet_type@ + "\",\n"@ + "                health = "@ + b.health@ + ",\n"@ + "                damage = "@ + b.damage@ + ",\n"@ + "                speed = "@ + b.speed@ + ",\n"@ + "                scatterRate = "@ + b.scatter_rate@ + ",\n"@ + "                lifeLength = "@ + b.life_length@ + ",\n"@, "                absorbtionFactor = "@, b.absorbtion_factor@, ",\n"@);
    lemma_starts_chain_lemma_bullet_lines_6(pre, b);
    lemma_line_in_prefix(pre + "            bullet = {\n"@ + "                type = \""@ + b.bullet_type@ + "\",\n"@ + "                health = "@ + b.health@ + ",\n"@ + "                damage = "@ + b.damage@ + ",\n"@ + "                speed = "@ + b.speed@ + ",\n"@ + "                scatterRate = "@ + b.scatter_rate@ + ",\n"@ + "                lifeLength = "@ + b.life_length@ + ",\n"@ + "                absorbtionFactor = "@ + b.absorbtion_factor@ + ",\n"@, barrel_bullet_onto(pre, b), "                absorbtionFactor = "@ + b.absorbtion_factor@ + ",\n"@);
}

proof fn lemma_starts_chain_lemma_bullet_lines_6(pre: Seq<char>, b: BarrelText)
    ensures
        starts_with(barrel_bullet_onto(pre, b), pre + "            bullet = {\n"@ + "                type = \""@ + b.bullet_type@ + "\",\n"@ + "                health = "@ + b.health@ + ",\n"@ + "                damage = "@ + b.damage@ + ",\n"@ + "                speed = "@ + b.speed@ + ",\n"@ + "                scatterRate = "@ + b.scatter_rate@ + ",\n"@ + "                lifeLength = "@ + b.life_length@ + ",\n"@ + "                absorbtionFactor = "@ + b.absorbtion_factor@ + ",\n"@),
{
    assert(barrel_bullet_onto(pre, b).subrange(0, (pre + "            bullet = {\n"@ + "                type = \""@ + b.bullet_type@ + "\",\n"@ + "                health = "@ + b.health@ + ",\n"@ + "                damage = "@ + b.damage@ + ",\n"@ + "                speed = "@ + b.speed@ + ",\n"@ + "                scatterRate = "@ + b.scatter_rate@ + ",\n"@ + "                lifeLength = "@ + b.life_length@ + ",\n"@ + "                absorbtionFactor = "@ + b.absorbtion_factor@ + ",\n"@).len() as int) =~= pre + "            bullet = {\n"@ + "                type = \""@ + b.bullet_type@ + "\",\n"@ + "                health = "@ + b.health@ + ",\n"@ + "                damage = "@ + b.damage@ + ",\n"@ + "                speed = "@ + b.speed@ + ",\n"@ + "                scatterRate = "@ + b.scatter_rate@ + ",\n"@ + "                lifeLength = "@ + b.life_length@ + ",\n"@ + "                absorbtionFactor = "@ + b.absorbtion_factor@ + ",\n"@);
}

proof fn lemma_bullet_lines_7(pre: Seq<char>, b: BarrelText)
    ensures
        has_line(barrel_bullet_onto(pre, b), "                sizeRatio = "@ + b.size_ratio@ + ",\n"@),
{
    lemma_line_ends(pre + "            bullet = {\n"@ + "                type = \""@ + b.bullet_type@ + "\",\n"@ + "                health = "@ + b.health@ + ",\n"@ + "                damage = "@ + b.damage@ + ",\n"@ + "                speed = "@ + b.speed@ + ",\n"@ + "                scatterRate = "@ + b.scatter_rate@ + ",\n"@ + "                lifeLength = "@ + b.life_length@ + ",\n"@ + "                absorbtionFactor = "@ + b.absorbtion_factor@ + ",\n"@, "                sizeRatio = "@, b.size_ratio@, ",\n"@);
    lemma_starts_chain_lemma_bullet_lines_7(pre, b);
    lemma_line_in_prefix(pre + "            bullet = {\n"@ + "                type = \""@ + b.bullet_type@ + "\",\n"@ + "                health = "@ + b.health@ + ",\n"@ + "                damage = "@ + b.damage@ + ",\n"@ + "                speed = "@ + b.speed@ + ",\n"@ + "                scatterRate = "@ + b.scatter_rate@ + ",\n"@ + "                lifeLength = "@ + b.life_length@ + ",\n"@ + "                absorbtionFactor = "@ + b.absorbtion_factor@ + ",\n"@ + "                sizeRatio = "@ + b.size_ratio@ + ",\n"@, barrel_bullet_onto(pre, b), "                sizeRatio = "@ + b.size_ratio@ + ",\n"@);
}

proof fn lemma_starts_chain_lemma_bullet_lines_7(pre: Seq<char>, b: BarrelText)
    ensures
        starts_with(barrel_bullet_onto(pre, b), pre + "            bullet = {\n"@ + "                type = \""@ + b.bullet_type@ + "\",\n"@ + "                health = "@ + b.health@ + ",\n"@ + "                damage = "@ + b.damage@ + ",\n"@ + "                speed = "@ + b.speed@ + ",\n"@ + "                scatterRate = "@ + b.scatter_rate@ + ",\n"@ + "                lifeLength = "@ + b.life_length@ + ",\n"@ + "                absorbtionFactor = "@ + b.absorbtion_factor@ + ",\n"@ + "                sizeRatio = "@ + b.size_ratio@ + ",\n"@),
{
    assert(barrel_bullet_onto(pre, b).subrange(0, (pre + "            bullet = {\n"@ + "                type = \""@ + b.bullet_type@ + "\",\n"@ + "                health = "@ + b.health@ + ",\n"@ + "                damage = "@ + b.damage@ + ",\n"@ + "                speed = "@ + b.speed@ + ",\n"@ + "                scatterRate = "@ + b.scatter_rate@ + ",\n"@ + "                lifeLength = "@ + b.life_length@ + ",\n"@ + "                absorbtionFactor = "@ + b.absorbtion_factor@ + ",\n"@ + "                sizeRatio = "@ + b.size_ratio@ + ",\n"@).len() as int) =~= pre + "            bullet = {\n"@ + "                type = \""@ + b.bullet_type@ + "\",\n"@ + "                health = "@ + b.health@ + ",\n"@ + "                damage = "@ + b.damage@ + ",\n"@ + "                speed = "@ + b.speed@ + ",\n"@ + "                scatterRate = "@ + b.scatter_rate@ + ",\n"@ + "                lifeLength = "@ + b.life_length@ + ",\n"@ + "                absorbtionFactor = "@ + b.absorbtion_factor@ + ",\n"@ + "                sizeRatio = "@ + b.size_ratio@ + ",\n"@);
}

proof fn lemma_bullet_lines(pre: Seq<char>, b: BarrelText)
    ensures
        has_line(barrel_bullet_onto(pre, b), "                type = \""@ + b.bullet_type@ + "\",\n"@),
        has_line(barrel_bullet_onto(pre, b), "                health = "@ + b.health@ + ",\n"@),
        has_line(barrel_bullet_onto(pre, b), "                damage = "@ + b.damage@ + ",\n"@),
        has_line(barrel_bullet_onto(pre, b), "                speed = "@ + b.speed@ + ",\n"@),
        has_line(barrel_bullet_onto(pre, b), "                scatterRate = "@ + b.scatter_rate@ + ",\n"@),
        has_line(barrel_bullet_onto(pre, b), "                lifeLength = "@ + b.life_length@ + ",\n"@),
        has_line(barrel_bullet_onto(pre, b), "                absorbtionFactor = "@ + b.absorbtion_factor@ + ",\n"@),
        has_line(barrel_bullet_onto(pre, b), "                sizeRatio = "@ + b.size_ratio@ + ",\n"@),
        starts_with(barrel_bullet_onto(pre, b), pre),
{
    lemma_bullet_lines_0(pre, b);
    lemma_bullet_lines_1(pre, b);
    lemma_bullet_lines_2(pre, b);
    lemma_bullet_lines_3(pre, b);
    lemma_bullet_lines_4(pre, b);
    lemma_bullet_lines_5(pre, b);
    lemma_bullet_lines_6(pre, b);
    lemma_bullet_lines_7(pre, b);
    assert(barrel_bullet_onto(pre, b).subrange(0, pre.len() as int) =~= pre);
}

proof fn lemma_drones(pre: Seq<char>, b: BarrelText)
    ensures
        starts_with(drones_onto(pre, b), pre),
        b.drone_count matches Some(n) ==> has_line(drones_onto(pre, b), "            droneCount = "@ + dec_text(n) + ",\n"@),
{
    match b.drone_count {
        Some(n) => {
            lemma_dec_split(pre + "            droneCount = "@, n);
            lemma_line_ends(pre, "            droneCount = "@, dec_text(n), ",\n"@);
            assert(drones_onto(pre, b) == pre + "            droneCount = "@ + dec_text(n) + ",\n"@);
            assert(drones_onto(pre, b).subrange(0, pre.len() as int) =~= pre);
        },
        None => {
            assert(drones_onto(pre, b).subrange(0, pre.len() as int) =~= pre);
        },
    }
}

/// A barrel block begins with what came before it and writes every field of
/// the barrel under its own key.
proof fn lemma_barrel_block(pre: Seq<char>, b: BarrelText)
    ensures
        starts_with(barrel_onto(pre, b), pre),
        barrel_lines_written(barrel_onto(pre, b), b),
{
    let t = barrel_top_onto(pre, b);
    let d = drones_onto(t, b);
    let s = barrel_onto(pre, b);
    lemma_top_lines(pre, b);
    lemma_drones(t, b);
    lemma_bullet_lines(d, b);
    lemma_starts_trans(t, d, s);
    lemma_starts_trans(pre, t, s);
    lemma_line_in_prefix(t, s, "            y = "@ + b.y@ + ",\n"@);
    lemma_line_in_prefix(t, s, "            angle = "@ + b.angle@ + ",\n"@);
    lemma_line_in_prefix(t, s, "            width = "@ + b.width@ + ",\n"@);
    lemma_line_in_prefix(t, s, "            length = "@ + b.length@ + ",\n"@);
    lemma_line_in_prefix(t, s, "            delay = "@ + b.delay@ + ",\n"@);
    lemma_line_in_prefix(t, s, "            reload = "@ + b.reload@ + ",\n"@);
    lemma_line_in_prefix(t, s, "            recoil = "@ + b.recoil@ + ",\n"@);
    lemma_line_in_prefix(t, s, "            isTrapezoid = "@ + bool_text(b.is_trapezoid) + ",\n"@);
    lemma_line_in_prefix(t, s, "            trapezoidDirection = "@ + b.trapezoid_direction@ + ",\n"@);
    lemma_line_in_prefix(t, s, "            addon = "@ + b.addon@ + ",\n"@);
    if let Some(n) = b.drone_count {
        lemma_line_in_prefix(d, s, "            droneCount = "@ + dec_text(n) + ",\n"@);
    }
}


proof fn lemma_barrels_starts(pre: Seq<char>, bs: Seq<BarrelText>, j: int)
    requires
        0 <= j <= bs.len(),
    ensures
        starts_with(barrels_onto(pre, bs), barrels_onto(pre, bs.subrange(0, j))),
    decreases bs.len(),
{
    if j == bs.len() {
        assert(bs.subrange(0, j) =~= bs);
        assert(barrels_onto(pre, bs).subrange(0, barrels_onto(pre, bs).len() as int) =~= barrels_onto(pre, bs));
    } else {
        let d = bs.drop_last();
        lemma_barrels_starts(pre, d, j);
        assert(d.subrange(0, j) =~= bs.subrange(0, j));
        lemma_barrel_block(barrels_onto(pre, d), bs.last());
        lemma_starts_trans(barrels_onto(pre, bs.subrange(0, j)), barrels_onto(pre, d), barrels_onto(pre, bs));
    }
}

proof fn lemma_upgrade_lines_starts(pre: Seq<char>, ups: Seq<String>)
    ensures
        starts_with(upgrade_lines_onto(pre, ups), pre),
    decreases ups.len(),
{
    if ups.len() == 0 {
        assert(upgrade_lines_onto(pre, ups).subrange(0, pre.len() as int) =~= pre);
    } else {
        let prev = upgrade_lines_onto(pre, ups.drop_last());
        lemma_upgrade_lines_starts(pre, ups.drop_last());
        assert(upgrade_lines_onto(pre, ups).subrange(0, prev.len() as int) =~= prev);
        lemma_starts_trans(pre, prev, upgrade_lines_onto(pre, ups));
    }
}

proof fn lemma_upgrades_starts(pre: Seq<char>, ups: Seq<String>)
    ensures
        starts_with(upgrades_onto(pre, ups), pre),
{
    if ups.len() == 0 {
        assert(upgrades_onto(pre, ups).subrange(0, pre.len() as int) =~= pre);
    } else {
        let p1 = pre + "    upgrades = {"@ + "\n"@;
        lemma_upgrade_lines_starts(p1, ups);
        let l = upgrade_lines_onto(p1, ups);
        assert(upgrades_onto(pre, ups).subrange(0, l.len() as int) =~= l);
        assert(p1.subrange(0, pre.len() as int) =~= pre);
        lemma_starts_trans(p1, l, upgrades_onto(pre, ups));
        lemma_starts_trans(pre, p1, upgrades_onto(pre, ups));
    }
}

proof fn lemma_stat_lines_starts(pre: Seq<char>, stats: Seq<StatText>)
    ensures
        starts_with(stat_lines_onto(pre, stats), pre),
    decreases stats.len(),
{
    if stats.len() == 0 {
        assert(stat_lines_onto(pre, stats).subrange(0, pre.len() as int) =~= pre);
    } else {
        let prev = stat_lines_onto(pre, stats.drop_last());
        lemma_stat_lines_starts(pre, stats.drop_last());
        let s = stats.last();
        let inner = prev + "        { name = \""@ + s.name@ + "\", max = "@;
        lemma_dec_starts(inner, s.max);
        let d = dec_onto(inner, s.max);
        assert(stat_onto(prev, s).subrange(0, d.len() as int) =~= d);
        assert(inner.subrange(0, prev.len() as int) =~= prev);
        lemma_starts_trans(inner, d, stat_onto(prev, s));
        lemma_starts_trans(prev, inner, stat_onto(prev, s));
        lemma_starts_trans(pre, prev, stat_onto(prev, s));
    }
}

/// The part of the script before the barrel blocks.
pub open spec fn before_barrels(t: TankText, ups: Seq<String>) -> Seq<char> {
    stat_lines_onto(
        body_onto(upgrades_onto(header_onto(Seq::empty(), t), ups), t) + "    stats = {\n"@,
        t.stats@,
    ) + "    },\n"@ + "    barrels = {\n"@
}

proof fn lemma_script_starts(t: TankText, ups: Seq<String>)
    ensures
        starts_with(tank_script_spec(t, ups), barrels_onto(before_barrels(t, ups), t.barrels@)),
        starts_with(tank_script_spec(t, ups), before_barrels(t, ups)),
        starts_with(tank_script_spec(t, ups), body_onto(upgrades_onto(header_onto(Seq::empty(), t), ups), t)),
        starts_with(tank_script_spec(t, ups), header_onto(Seq::empty(), t)),
        starts_with(tank_script_spec(t, ups), upgrades_onto(header_onto(Seq::empty(), t), ups)),
        starts_with(
            tank_script_spec(t, ups),
            stat_lines_onto(
                body_onto(upgrades_onto(header_onto(Seq::empty(), t), ups), t) + "    stats = {\n"@,
                t.stats@,
            ),
        ),
{
    let h = header_onto(Seq::empty(), t);
    let u = upgrades_onto(h, ups);
    let b = body_onto(u, t);
    let st = b + "    stats = {\n"@;
    let sl = stat_lines_onto(st, t.stats@);
    let q = before_barrels(t, ups);
    let all = barrels_onto(q, t.barrels@);
    let script = tank_script_spec(t, ups);
    assert(script.subrange(0, all.len() as int) =~= all);
    lemma_barrels_starts(q, t.barrels@, 0);
    assert(t.barrels@.subrange(0, 0) =~= Seq::<BarrelText>::empty());
    lemma_starts_trans(q, all, script);
    lemma_stat_lines_starts(st, t.stats@);
    assert(q.subrange(0, sl.len() as int) =~= sl);
    assert(st.subrange(0, b.len() as int) =~= b);
    lemma_starts_trans(sl, q, script);
    lemma_starts_trans(st, sl, script);
    lemma_starts_trans(b, st, script);
    lemma_body_starts(u, t);
    lemma_upgrades_starts(h, ups);
    lemma_starts_trans(u, b, script);
    lemma_starts_trans(h, u, script);
}

/// Every field of every barrel of a tank is written under its own key in
/// the tank's script: the barrel's position, angle, size, timings, addon,
/// trapezoid flag and drone count, and its bullet's type, health, damage,
/// speed, scatter rate, life length, absorption factor and size ratio.
pub proof fn law_script_writes_barrel_fields(t: TankText, ups: Seq<String>, k: int)
    requires
        0 <= k < t.barrels@.len(),
    ensures
        barrel_lines_written(tank_script_spec(t, ups), t.barrels@[k]),
{
    let bs = t.barrels@;
    let q = before_barrels(t, ups);
    let sub = bs.subrange(0, k + 1);
    assert(sub.drop_last() =~= bs.subrange(0, k));
    assert(sub.last() == bs[k]);
    lemma_barrel_block(barrels_onto(q, bs.subrange(0, k)), bs[k]);
    lemma_barrels_starts(q, bs, k + 1);
    lemma_script_starts(t, ups);
    lemma_starts_trans(barrels_onto(q, sub), barrels_onto(q, bs), tank_script_spec(t, ups));
    lemma_barrel_lines_prefix(barrels_onto(q, sub), tank_script_spec(t, ups), bs[k]);
}

/// Every tank-level field of `t` written under its own key in `s`: id,
/// name, upgrade message, level requirement, max health, sides, field and
/// absorption factors, addons and the four flags.
pub open spec fn tank_lines_written(s: Seq<char>, t: TankText) -> bool {
    &&& has_line(s, "    id = "@ + dec_text(t.id) + ",\n"@)
    &&& has_line(s, "    name = \""@ + t.name@ + "\",\n"@)
    &&& has_line(s, "    upgradeMessage = \""@ + t.upgrade_message@ + "\",\n"@)
    &&& has_line(s, "    levelRequirement = "@ + dec_text(t.level_requirement) + ",\n"@)
    &&& has_line(s, "    maxHealth = "@ + dec_text(t.max_health) + ",\n"@)
    &&& has_line(s, "    sides = "@ + dec_text(t.sides) + ",\n"@)
    &&& has_line(s, "    fieldFactor = "@ + t.field_factor@ + ",\n"@)
    &&& has_line(s, "    absorbtionFactor = "@ + t.absorbtion_factor@ + ",\n"@)
    &&& has_line(s, "    preAddon = "@ + dec_text(t.pre_addon) + ",\n"@)
    &&& has_line(s, "    postAddon = "@ + dec_text(t.post_addon) + ",\n"@)
    &&& has_line(s, "        invisibility = "@ + bool_text(t.invisibility) + ",\n"@)
    &&& has_line(s, "        zoomAbility = "@ + bool_text(t.zoom_ability) + ",\n"@)
    &&& has_line(s, "        canShoot = "@ + bool_text(t.can_shoot) + ",\n"@)
    &&& has_line(s, "        devOnly = "@ + bool_text(t.dev_only) + ",\n"@)
}

proof fn lemma_header_lines(pre: Seq<char>, t: TankText)
    ensures
        starts_with(header_onto(pre, t), pre),
        has_line(header_onto(pre, t), "    id = "@ + dec_text(t.id) + ",\n"@),
        has_line(header_onto(pre, t), "    name = \""@ + t.name@ + "\",\n"@),
        has_line(header_onto(pre, t), "    upgradeMessage = \""@ + t.upgrade_message@ + "\",\n"@),
        has_line(header_onto(pre, t), "    levelRequirement = "@ + dec_text(t.level_requirement) + ",\n"@),
{
    let x0 = pre + "-- "@ + t.name@ + " (converted from tank_defs.json)\n"@
        + "-- units are game units (tank body = 42), angles are degrees.\n"@ + "return {\n"@;
    let i1 = x0 + "    id = "@;
    let d1 = dec_onto(i1, t.id);
    let m = d1 + ",\n"@;
    let pn = m + "    name = \""@ + t.name@ + "\",\n"@;
    let pm = pn + "    upgradeMessage = \""@ + t.upgrade_message@ + "\",\n"@;
    let i2 = pm + "    levelRequirement = "@;
    let h = header_onto(pre, t);
    lemma_dec_split(i1, t.id);
    lemma_dec_split(i2, t.level_requirement);
    assert(h == pm + "    levelRequirement = "@ + dec_text(t.level_requirement) + ",\n"@);
    assert(h.subrange(0, pm.len() as int) =~= pm);
    assert(pm.subrange(0, pn.len() as int) =~= pn);
    assert(pn.subrange(0, m.len() as int) =~= m);
    assert(m == x0 + "    id = "@ + dec_text(t.id) + ",\n"@);
    assert(m.subrange(0, pre.len() as int) =~= pre);
    lemma_starts_trans(pn, pm, h);
    lemma_starts_trans(m, pn, h);
    lemma_starts_trans(pre, m, h);
    lemma_line_ends(x0, "    id = "@, dec_text(t.id), ",\n"@);
    lemma_line_in_prefix(m, h, "    id = "@ + dec_text(t.id) + ",\n"@);
    lemma_line_ends(m, "    name = \""@, t.name@, "\",\n"@);
    lemma_line_in_prefix(pn, h, "    name = \""@ + t.name@ + "\",\n"@);
    lemma_line_ends(pn, "    upgradeMessage = \""@, t.upgrade_message@, "\",\n"@);
    lemma_line_in_prefix(pm, h, "    upgradeMessage = \""@ + t.upgrade_message@ + "\",\n"@);
    lemma_line_ends(pm, "    levelRequirement = "@, dec_text(t.level_requirement), ",\n"@);
}

proof fn lemma_body_dec_lines(pre: Seq<char>, t: TankText)
    ensures
        starts_with(body_onto(pre, t), pre),
        has_line(body_onto(pre, t), "    maxHealth = "@ + dec_text(t.max_health) + ",\n"@),
        has_line(body_onto(pre, t), "    sides = "@ + dec_text(t.sides) + ",\n"@),
        has_line(body_onto(pre, t), "    fieldFactor = "@ + t.field_factor@ + ",\n"@),
        has_line(body_onto(pre, t), "    absorbtionFactor = "@ + t.absorbtion_factor@ + ",\n"@),
        has_line(body_onto(pre, t), "    preAddon = "@ + dec_text(t.pre_addon) + ",\n"@),
        has_line(body_onto(pre, t), "    postAddon = "@ + dec_text(t.post_addon) + ",\n"@),
{
    let x0 = pre + "    speed = 1,\n"@;
    let b0 = x0 + "    maxHealth = "@;
    let da = dec_onto(b0, t.max_health);
    let ma = da + ",\n"@;
    let b1 = ma + "    sides = "@;
    let db = dec_onto(b1, t.sides);
    let mb = db + ",\n"@;
    let pf = mb + "    fieldFactor = "@ + t.field_factor@ + ",\n"@;
    let pa = pf + "    absorbtionFactor = "@ + t.absorbtion_factor@ + ",\n"@;
    let b2 = pa + "    preAddon = "@;
    let dc = dec_onto(b2, t.pre_addon);
    let mc = dc + ",\n"@;
    let b3 = mc + "    postAddon = "@;
    let dd = dec_onto(b3, t.post_addon);
    let md = dd + ",\n"@;
    let body = body_onto(pre, t);
    lemma_dec_split(b0, t.max_health);
    lemma_dec_split(b1, t.sides);
    lemma_dec_split(b2, t.pre_addon);
    lemma_dec_split(b3, t.post_addon);
    assert(body.subrange(0, md.len() as int) =~= md);
    assert(md == b3 + dec_text(t.post_addon) + ",\n"@);
    assert(md.subrange(0, mc.len() as int) =~= mc);
    assert(mc == b2 + dec_text(t.pre_addon) + ",\n"@);
    assert(mc.subrange(0, pa.len() as int) =~= pa);
    assert(pa.subrange(0, pf.len() as int) =~= pf);
    assert(pf.subrange(0, mb.len() as int) =~= mb);
    assert(mb == b1 + dec_text(t.sides) + ",\n"@);
    assert(mb.subrange(0, ma.len() as int) =~= ma);
    assert(ma == b0 + dec_text(t.max_health) + ",\n"@);
    assert(ma.subrange(0, pre.len() as int) =~= pre);
    lemma_starts_trans(mc, md, body);
    lemma_starts_trans(pa, mc, body);
    lemma_starts_trans(pf, pa, body);
    lemma_starts_trans(mb, pf, body);
    lemma_starts_trans(ma, mb, body);
    lemma_starts_trans(pre, ma, body);
    lemma_line_ends(x0, "    maxHealth = "@, dec_text(t.max_health), ",\n"@);
    lemma_line_in_prefix(ma, body, "    maxHealth = "@ + dec_text(t.max_health) + ",\n"@);
    lemma_line_ends(ma, "    sides = "@, dec_text(t.sides), ",\n"@);
    lemma_line_in_prefix(mb, body, "    sides = "@ + dec_text(t.sides) + ",\n"@);
    lemma_line_ends(mb, "    fieldFactor = "@, t.field_factor@, ",\n"@);
    lemma_line_in_prefix(pf, body, "    fieldFactor = "@ + t.field_factor@ + ",\n"@);
    lemma_line_ends(pf, "    absorbtionFactor = "@, t.absorbtion_factor@, ",\n"@);
    lemma_line_in_prefix(pa, body, "    absorbtionFactor = "@ + t.absorbtion_factor@ + ",\n"@);
    lemma_line_ends(pa, "    preAddon = "@, dec_text(t.pre_addon), ",\n"@);
    lemma_line_in_prefix(mc, body, "    preAddon = "@ + dec_text(t.pre_addon) + ",\n"@);
    lemma_line_ends(mc, "    postAddon = "@, dec_text(t.post_addon), ",\n"@);
    lemma_line_in_prefix(md, body, "    postAddon = "@ + dec_text(t.post_addon) + ",\n"@);
}

/// The body's flags block, after the addon lines.
pub open spec fn body_flags_prefix(pre: Seq<char>, t: TankText) -> Seq<char> {
    dec_onto(
        dec_onto(
            dec_onto(
                dec_onto(pre + "    speed = 1,\n"@ + "    maxHealth = "@, t.max_health) + ",\n"@
                    + "    sides = "@,
                t.sides,
            ) + ",\n"@ + "    fieldFactor = "@ + t.field_factor@ + ",\n"@ + "    absorbtionFactor = "@
                + t.absorbtion_factor@ + ",\n"@ + "    preAddon = "@,
            t.pre_addon,
        ) + ",\n"@ + "    postAddon = "@,
        t.post_addon,
    ) + ",\n"@ + "    flags = {\n"@
}

proof fn lemma_body_flag_lines(pre: Seq<char>, t: TankText)
    ensures
        has_line(body_onto(pre, t), "        invisibility = "@ + bool_text(t.invisibility) + ",\n"@),
        has_line(body_onto(pre, t), "        zoomAbility = "@ + bool_text(t.zoom_ability) + ",\n"@),
        has_line(body_onto(pre, t), "        canShoot = "@ + bool_text(t.can_shoot) + ",\n"@),
        has_line(body_onto(pre, t), "        devOnly = "@ + bool_text(t.dev_only) + ",\n"@),
{
    let f = body_flags_prefix(pre, t);
    let body = body_onto(pre, t);
    let p1 = f + "        invisibility = "@ + bool_text(t.invisibility) + ",\n"@;
    let p2 = p1 + "        zoomAbility = "@ + bool_text(t.zoom_ability) + ",\n"@;
    let p3 = p2 + "        canShoot = "@ + bool_text(t.can_shoot) + ",\n"@;
    let p4 = p3 + "        devOnly = "@ + bool_text(t.dev_only) + ",\n"@;
    assert(body == p4 + "    },\n"@);
    lemma_starts_add(p4, "    },\n"@);
    assert(p4.subrange(0, p3.len() as int) =~= p3);
    assert(p3.subrange(0, p2.len() as int) =~= p2);
    assert(p2.subrange(0, p1.len() as int) =~= p1);
    lemma_starts_trans(p3, p4, body);
    lemma_starts_trans(p2, p3, body);
    lemma_starts_trans(p1, p2, body);
    lemma_line_ends(f, "        invisibility = "@, bool_text(t.invisibility), ",\n"@);
    lemma_line_in_prefix(p1, body, "        invisibility = "@ + bool_text(t.invisibility) + ",\n"@);
    lemma_line_ends(p1, "        zoomAbility = "@, bool_text(t.zoom_ability), ",\n"@);
    lemma_line_in_prefix(p2, body, "        zoomAbility = "@ + bool_text(t.zoom_ability) + ",\n"@);
    lemma_line_ends(p2, "        canShoot = "@, bool_text(t.can_shoot), ",\n"@);
    lemma_line_in_prefix(p3, body, "        canShoot = "@ + bool_text(t.can_shoot) + ",\n"@);
    lemma_line_ends(p3, "        devOnly = "@, bool_text(t.dev_only), ",\n"@);
    lemma_line_in_prefix(p4, body, "        devOnly = "@ + bool_text(t.dev_only) + ",\n"@);
}

proof fn lemma_body_starts(pre: Seq<char>, t: TankText)
    ensures
        starts_with(body_onto(pre, t), pre),
{
    lemma_body_dec_lines(pre, t);
}

/// Every tank-level field of a tank is written under its own key in the
/// tank's script.
pub proof fn law_script_writes_tank_fields(t: TankText, ups: Seq<String>)
    ensures
        tank_lines_written(tank_script_spec(t, ups), t),
{
    let h = header_onto(Seq::empty(), t);
    let b = body_onto(upgrades_onto(h, ups), t);
    let s = tank_script_spec(t, ups);
    lemma_script_starts(t, ups);
    lemma_header_lines(Seq::empty(), t);
    lemma_body_dec_lines(upgrades_onto(h, ups), t);
    lemma_body_flag_lines(upgrades_onto(h, ups), t);
    lemma_line_in_prefix(h, s, "    id = "@ + dec_text(t.id) + ",\n"@);
    lemma_line_in_prefix(h, s, "    name = \""@ + t.name@ + "\",\n"@);
    lemma_line_in_prefix(h, s, "    upgradeMessage = \""@ + t.upgrade_message@ + "\",\n"@);
    lemma_line_in_prefix(h, s, "    levelRequirement = "@ + dec_text(t.level_requirement) + ",\n"@);
    lemma_line_in_prefix(b, s, "    maxHealth = "@ + dec_text(t.max_health) + ",\n"@);
    lemma_line_in_prefix(b, s, "    sides = "@ + dec_text(t.sides) + ",\n"@);
    lemma_line_in_prefix(b, s, "    fieldFactor = "@ + t.field_factor@ + ",\n"@);
    lemma_line_in_prefix(b, s, "    absorbtionFactor = "@ + t.absorbtion_factor@ + ",\n"@);
    lemma_line_in_prefix(b, s, "    preAddon = "@ + dec_text(t.pre_addon) + ",\n"@);
    lemma_line_in_prefix(b, s, "    postAddon = "@ + dec_text(t.post_addon) + ",\n"@);
    lemma_line_in_prefix(b, s, "        invisibility = "@ + bool_text(t.invisibility) + ",\n"@);
    lemma_line_in_prefix(b, s, "        zoomAbility = "@ + bool_text(t.zoom_ability) + ",\n"@);
    lemma_line_in_prefix(b, s, "        canShoot = "@ + bool_text(t.can_shoot) + ",\n"@);
    lemma_line_in_prefix(b, s, "        devOnly = "@ + bool_text(t.dev_only) + ",\n"@);
}

proof fn lemma_upgrade_lines_prefix(pre: Seq<char>, ups: Seq<String>, j: int)
    requires
        0 <= j <= ups.len(),
    ensures
        starts_with(upgrade_lines_onto(pre, ups), upgrade_lines_onto(pre, ups.subrange(0, j))),
    decreases ups.len(),
{
    if j == ups.len() {
        assert(ups.subrange(0, j) =~= ups);
        assert(upgrade_lines_onto(pre, ups).subrange(0, upgrade_lines_onto(pre, ups).len() as int)
            =~= upgrade_lines_onto(pre, ups));
    } else {
        let d = ups.drop_last();
        lemma_upgrade_lines_prefix(pre, d, j);
        assert(d.subrange(0, j) =~= ups.subrange(0, j));
        let prev = upgrade_lines_onto(pre, d);
        assert(upgrade_lines_onto(pre, ups).subrange(0, prev.len() as int) =~= prev);
        lemma_starts_trans(upgrade_lines_onto(pre, ups.subrange(0, j)), prev, upgrade_lines_onto(pre, ups));
    }
}

proof fn lemma_stat_lines_prefix(pre: Seq<char>, stats: Seq<StatText>, j: int)
    requires
        0 <= j <= stats.len(),
    ensures
        starts_with(stat_lines_onto(pre, stats), stat_lines_onto(pre, stats.subrange(0, j))),
    decreases stats.len(),
{
    if j == stats.len() {
        assert(stats.subrange(0, j) =~= stats);
        assert(stat_lines_onto(pre, stats).subrange(0, stat_lines_onto(pre, stats).len() as int)
            =~= stat_lines_onto(pre, stats));
    } else {
        let d = stats.drop_last();
        lemma_stat_lines_prefix(pre, d, j);
        assert(d.subrange(0, j) =~= stats.subrange(0, j));
        let prev = stat_lines_onto(pre, d);
        let s = stats.last();
        let inner = prev + "        { name = \""@ + s.name@ + "\", max = "@;
        lemma_dec_starts(inner, s.max);
        let dd = dec_onto(inner, s.max);
        assert(stat_onto(prev, s).subrange(0, dd.len() as int) =~= dd);
        assert(inner.subrange(0, prev.len() as int) =~= prev);
        lemma_starts_trans(inner, dd, stat_onto(prev, s));
        lemma_starts_trans(prev, inner, stat_onto(prev, s));
        lemma_starts_trans(stat_lines_onto(pre, stats.subrange(0, j)), prev, stat_lines_onto(pre, stats));
    }
}

/// Each upgrade a tank names is written on a line of its own, quoted, in
/// the script's upgrade list.
pub proof fn law_script_lists_upgrades(t: TankText, ups: Seq<String>, k: int)
    requires
        0 <= k < ups.len(),
    ensures
        has_line(tank_script_spec(t, ups), "        \""@ + ups[k]@ + "\",\n"@),
{
    let h = header_onto(Seq::empty(), t);
    let p1 = h + "    upgrades = {"@ + "\n"@;
    let sub = ups.subrange(0, k + 1);
    assert(sub.drop_last() =~= ups.subrange(0, k));
    let sk = upgrade_lines_onto(p1, sub);
    lemma_line_ends(upgrade_lines_onto(p1, ups.subrange(0, k)), "        \""@, ups[k]@, "\",\n"@);
    lemma_upgrade_lines_prefix(p1, ups, k + 1);
    let all = upgrade_lines_onto(p1, ups);
    let u = upgrades_onto(h, ups);
    assert(u.subrange(0, all.len() as int) =~= all);
    lemma_script_starts(t, ups);
    lemma_starts_trans(sk, all, u);
    lemma_starts_trans(sk, u, tank_script_spec(t, ups));
    lemma_line_in_prefix(sk, tank_script_spec(t, ups), "        \""@ + ups[k]@ + "\",\n"@);
}

/// Each stat of a tank is written on a line of its own with its name and
/// maximum.
pub proof fn law_script_lists_stats(t: TankText, ups: Seq<String>, k: int)
    requires
        0 <= k < t.stats@.len(),
    ensures
        has_line(
            tank_script_spec(t, ups),
            "        { name = \""@ + t.stats@[k].name@ + "\", max = "@ + dec_text(t.stats@[k].max) + " },\n"@,
        ),
{
    let h = header_onto(Seq::empty(), t);
    let st = body_onto(upgrades_onto(h, ups), t) + "    stats = {\n"@;
    let stats = t.stats@;
    let sub = stats.subrange(0, k + 1);
    assert(sub.drop_last() =~= stats.subrange(0, k));
    let prev = stat_lines_onto(st, stats.subrange(0, k));
    let s = stats[k];
    assert(sub.last() == s);
    let inner = prev + "        { name = \""@ + s.name@ + "\", max = "@;
    lemma_dec_split(inner, s.max);
    let sk = stat_lines_onto(st, sub);
    assert(sk == prev + "        { name = \""@ + s.name@ + "\", max = "@ + dec_text(s.max) + " },\n"@);
    let line = "        { name = \""@ + s.name@ + "\", max = "@ + dec_text(s.max) + " },\n"@;
    assert(sk.subrange(prev.len() as int, prev.len() as int + line.len()) =~= line);
    assert(has_line(sk, line));
    lemma_stat_lines_prefix(st, stats, k + 1);
    lemma_script_starts(t, ups);
    lemma_starts_trans(sk, stat_lines_onto(st, stats), tank_script_spec(t, ups));
    lemma_line_in_prefix(sk, tank_script_spec(t, ups), line);
}

} // verus!
