//! Game rules: levelling, shape kinds, health limits and network ids.
use vstd::prelude::*;
use crate::packets::EntityType;
use crate::tanks::{EntityId, TankRecord, Tanks};

verus! {

/// The highest level a tank can reach.
pub const MAX_LEVEL: u32 = 45;

/// Cap on the experience a single level can require.
pub const MAX_XP_NEED: u32 = 100000;

/// Max health gained per level.
pub const HEALTH_PER_LEVEL: u32 = 10;

/// Bullet damage gained per level.
pub const DAMAGE_PER_LEVEL: u32 = 2;

/// Experience the next level needs: 12% more than this one (rounded down),
/// capped at `MAX_XP_NEED`.
pub open spec fn next_xp_need(need: u32) -> u32 {
    if need * 28 / 25 < MAX_XP_NEED {
        (need * 28 / 25) as u32
    } else {
        MAX_XP_NEED
    }
}

/// Spends experience on level-ups while it covers the current need and the
/// level cap is not reached: the resulting (experience, need, level).
pub open spec fn settle(xp: u32, need: u32, level: u32) -> (u32, u32, u32)
    decreases MAX_LEVEL - level,
{
    if xp >= need && level < MAX_LEVEL {
        settle((xp - need) as u32, next_xp_need(need), (level + 1) as u32)
    } else {
        (xp, need, level)
    }
}

/// Levels a tank gains from `gained` experience.
pub open spec fn levels_gained(t: TankRecord, gained: u32) -> int {
    settle((t.xp.0 + gained) as u32, t.xp.1, t.level).2 - t.level
}

/// The (experience, need) pair a tank holds after gaining `gained`
/// experience: what `settle` leaves, except that a tank at the level cap
/// sits one point short of its need.
pub open spec fn xp_after_grant(t: TankRecord, gained: u32) -> (u32, u32) {
    let (x, n, l) = settle((t.xp.0 + gained) as u32, t.xp.1, t.level);
    if l == MAX_LEVEL {
        ((n - 1) as u32, n)
    } else {
        (x, n)
    }
}

/// The grant fits the machine's integers: no counter passes `u32::MAX`.
pub open spec fn grant_fits(t: TankRecord, gained: u32, health: u32) -> bool {
    &&& t.xp.0 + gained <= u32::MAX
    &&& t.max_health + HEALTH_PER_LEVEL * levels_gained(t, gained) <= u32::MAX
    &&& t.bullet_damage + DAMAGE_PER_LEVEL * levels_gained(t, gained) <= u32::MAX
    &&& health + HEALTH_PER_LEVEL * levels_gained(t, gained) <= u32::MAX
}

proof fn lemma_settle(xp: u32, need: u32, level: u32)
    requires
        need >= 1,
    ensures
        settle(xp, need, level).1 >= 1,
        settle(xp, need, level).2 >= level,
        level <= MAX_LEVEL ==> settle(xp, need, level).2 <= MAX_LEVEL,
        settle(xp, need, level).0 < settle(xp, need, level).1 || settle(xp, need, level).2
            >= MAX_LEVEL,
    decreases MAX_LEVEL - level,
{
    if xp >= need && level < MAX_LEVEL {
        assert(need * 28 / 25 >= 1);
        lemma_settle((xp - need) as u32, next_xp_need(need), (level + 1) as u32);
    }
}

/// Whether crediting `xp_gained` to `owner` (with `health` as its current
/// health) stays within the machine's integers, so that `grant_xp` may be
/// called; trivially true when `owner` holds no tank.
pub fn grant_fits_check(tanks: &Tanks, owner: EntityId, xp_gained: u32, health: u32) -> (ok: bool)
    requires
        tanks.wf(),
    ensures
        ok == (tanks@.dom().contains(owner) ==> grant_fits(tanks@[owner], xp_gained, health)),
{
    let t = match tanks.get(owner) {
        Some(t) => t,
        None => return true,
    };
    proof {
        tanks.lemma_xp_need_positive(owner);
    }
    if xp_gained > u32::MAX - t.xp.0 {
        return false;
    }
    let ghost target = settle((t.xp.0 + xp_gained) as u32, t.xp.1, t.level);
    let mut xp: u32 = t.xp.0 + xp_gained;
    let mut need: u32 = t.xp.1;
    let mut level: u32 = t.level;
    let mut levels: u64 = 0;
    proof {
        lemma_settle(xp, need, level);
    }
    while xp >= need && level < MAX_LEVEL
        invariant
            need >= 1,
            settle(xp, need, level) == target,
            t.level <= level <= target.2,
            levels == level - t.level,
            levels <= MAX_LEVEL,
        decreases MAX_LEVEL - level,
    {
        proof {
            lemma_settle((xp - need) as u32, next_xp_need(need), (level + 1) as u32);
            assert(need * 28 / 25 >= 1);
        }
        xp = xp - need;
        let grown: u64 = (need as u64) * 28 / 25;
        need = if grown < MAX_XP_NEED as u64 {
            grown as u32
        } else {
            MAX_XP_NEED
        };
        level = level + 1;
        levels = levels + 1;
    }
    let health_growth: u64 = 10 * levels;
    let damage_growth: u64 = 2 * levels;
    (t.max_health as u64) + health_growth <= u32::MAX as u64 && (t.bullet_damage as u64) + damage_growth
        <= u32::MAX as u64 && (health as u64) + health_growth <= u32::MAX as u64
}

/// Credits `xp_gained` experience to the tank `owner` and levels it up as far
/// as the experience reaches: each level costs the current need, raises the
/// need by 12% (capped), and adds max health and bullet damage. A tank at the
/// level cap keeps its experience one short of the need. When levels were
/// gained, `health` heals by the same amount as max health grew, up to the
/// new max. Returns the number of levels gained (0 when `owner` holds no
/// tank), so that the caller can grow the remaining per-level stats.
pub fn grant_xp(tanks: &mut Tanks, owner: EntityId, xp_gained: u32, health: &mut u32) -> (levels: u32)
    requires
        old(tanks).wf(),
        old(tanks)@.dom().contains(owner) ==> grant_fits(old(tanks)@[owner], xp_gained, *old(health)),
    ensures
        final(tanks).wf(),
        !old(tanks)@.dom().contains(owner) ==> {
            &&& levels == 0
            &&& final(tanks)@ == old(tanks)@
            &&& *final(health) == *old(health)
        },
        old(tanks)@.dom().contains(owner) ==> {
            let t = old(tanks)@[owner];
            let gained = levels_gained(t, xp_gained);
            let new_max = (t.max_health + HEALTH_PER_LEVEL * gained) as u32;
            &&& levels == gained
            &&& final(tanks)@ == old(tanks)@.insert(
                owner,
                (TankRecord {
                    xp: xp_after_grant(t, xp_gained),
                    level: (t.level + gained) as u32,
                    max_health: new_max,
                    bullet_damage: (t.bullet_damage + DAMAGE_PER_LEVEL * gained) as u32,
                    ..t
                }),
            )
            &&& *final(health) == if gained > 0 {
                if *old(health) + HEALTH_PER_LEVEL * gained < new_max {
                    (*old(health) + HEALTH_PER_LEVEL * gained) as u32
                } else {
                    new_max
                }
            } else {
                *old(health)
            }
        },
{
    let (xp0, need0, level0, max_health0, damage0) = match tanks.get(owner) {
        Some(t) => (t.xp.0, t.xp.1, t.level, t.max_health, t.bullet_damage),
        None => return 0,
    };
    let ghost t = old(tanks)@[owner];
    proof {
        old(tanks).lemma_xp_need_positive(owner);
        lemma_settle((xp0 + xp_gained) as u32, need0, level0);
    }
    let ghost target = settle((xp0 + xp_gained) as u32, need0, level0);
    let mut xp: u32 = xp0 + xp_gained;
    let mut need: u32 = need0;
    let mut level: u32 = level0;
    let mut max_health: u32 = max_health0;
    let mut damage: u32 = damage0;
    while xp >= need && level < MAX_LEVEL
        invariant
            need >= 1,
            settle(xp, need, level) == target,
            level0 <= level <= target.2,
            max_health == max_health0 + HEALTH_PER_LEVEL * (level - level0),
            damage == damage0 + DAMAGE_PER_LEVEL * (level - level0),
            max_health0 + HEALTH_PER_LEVEL * (target.2 - level0) <= u32::MAX,
            damage0 + DAMAGE_PER_LEVEL * (target.2 - level0) <= u32::MAX,
        decreases MAX_LEVEL - level,
    {
        proof {
            lemma_settle((xp - need) as u32, next_xp_need(need), (level + 1) as u32);
            assert(need * 28 / 25 >= 1);
        }
        xp = xp - need;
        let grown: u64 = (need as u64) * 28 / 25;
        need = if grown < MAX_XP_NEED as u64 {
            grown as u32
        } else {
            MAX_XP_NEED
        };
        level = level + 1;
        max_health = max_health + HEALTH_PER_LEVEL;
        damage = damage + DAMAGE_PER_LEVEL;
    }
    if level == MAX_LEVEL {
        xp = need - 1;
    }
    tanks.set_progress(owner, (xp, need), level, max_health, damage);
    let levels = level - level0;
    if levels > 0 {
        let healed: u32 = *health + levels * HEALTH_PER_LEVEL;
        *health = if healed < max_health {
            healed
        } else {
            max_health
        };
    }
    levels
}

/// The tank record `t` becomes after `grant_xp` credits it `gained`.
pub open spec fn granted(t: TankRecord, gained: u32) -> TankRecord {
    TankRecord {
        xp: xp_after_grant(t, gained),
        level: (t.level + levels_gained(t, gained)) as u32,
        max_health: (t.max_health + HEALTH_PER_LEVEL * levels_gained(t, gained)) as u32,
        bullet_damage: (t.bullet_damage + DAMAGE_PER_LEVEL * levels_gained(t, gained)) as u32,
        ..t
    }
}

/// The health `grant_xp` leaves the credited tank: healed by what max
/// health grew, up to the new max, when levels were gained.
pub open spec fn healed_after_grant(t: TankRecord, gained: u32, health: u32) -> u32 {
    let g = levels_gained(t, gained);
    let new_max = (t.max_health + HEALTH_PER_LEVEL * g) as u32;
    if g > 0 {
        if health + HEALTH_PER_LEVEL * g < new_max {
            (health + HEALTH_PER_LEVEL * g) as u32
        } else {
            new_max
        }
    } else {
        health
    }
}

/// After a grant a tank's experience is below what its next level needs, and
/// its level has not passed the cap.
pub proof fn law_grant_leaves_xp_below_need(t: TankRecord, gained: u32)
    requires
        t.xp.1 >= 1,
        t.level <= MAX_LEVEL,
    ensures
        xp_after_grant(t, gained).0 < xp_after_grant(t, gained).1,
        t.level <= t.level + levels_gained(t, gained) <= MAX_LEVEL,
{
    lemma_settle((t.xp.0 + gained) as u32, t.xp.1, t.level);
}

/// The kinds of shape that spawn on the map.
#[derive(Clone, Copy, Debug, PartialEq, Eq, Structural)]
pub enum ShapeKind {
    Square,
    Triangle,
    Pentagon,
}

/// Full health of a shape of the given kind.
pub open spec fn shape_max_health_spec(kind: ShapeKind) -> u32 {
    match kind {
        ShapeKind::Square => 10,
        ShapeKind::Triangle => 30,
        ShapeKind::Pentagon => 100,
    }
}

/// Full health of a shape of the given kind.
pub fn shape_max_health(kind: ShapeKind) -> (health: u32)
    ensures
        health == shape_max_health_spec(kind),
{
    match kind {
        ShapeKind::Square => 10,
        ShapeKind::Triangle => 30,
        ShapeKind::Pentagon => 100,
    }
}

/// The number a shape kind is announced with to clients.
pub open spec fn shape_kind_id_spec(kind: ShapeKind) -> u32 {
    match kind {
        ShapeKind::Square => 1,
        ShapeKind::Triangle => 2,
        ShapeKind::Pentagon => 3,
    }
}

/// The number a shape kind is announced with to clients.
pub fn shape_kind_id(kind: ShapeKind) -> (id: u32)
    ensures
        id == shape_kind_id_spec(kind),
{
    match kind {
        ShapeKind::Square => 1,
        ShapeKind::Triangle => 2,
        ShapeKind::Pentagon => 3,
    }
}

/// The kind a client reads from an announced number: 2 and 3 name the
/// triangle and the pentagon, anything else a square.
pub open spec fn shape_kind_from_id_spec(id: u32) -> ShapeKind {
    if id == 2 {
        ShapeKind::Triangle
    } else if id == 3 {
        ShapeKind::Pentagon
    } else {
        ShapeKind::Square
    }
}

/// The kind a client reads from an announced number.
pub fn shape_kind_from_id(id: u32) -> (kind: ShapeKind)
    ensures
        kind == shape_kind_from_id_spec(id),
{
    match id {
        2 => ShapeKind::Triangle,
        3 => ShapeKind::Pentagon,
        _ => ShapeKind::Square,
    }
}

/// Number of sides a shape of each kind has.
pub open spec fn shape_sides_spec(kind: ShapeKind) -> u32 {
    match kind {
        ShapeKind::Square => 4u32,
        ShapeKind::Triangle => 3u32,
        ShapeKind::Pentagon => 5u32,
    }
}

/// Number of sides a shape is drawn with.
pub fn shape_sides(kind: ShapeKind) -> (sides: u32)
    ensures
        sides == shape_sides_spec(kind),
{
    match kind {
        ShapeKind::Square => 4,
        ShapeKind::Triangle => 3,
        ShapeKind::Pentagon => 5,
    }
}

/// A client reads back the kind the server announced, and so expects the
/// same full health for it.
pub proof fn law_shape_kind_round_trip(kind: ShapeKind)
    ensures
        shape_kind_from_id_spec(shape_kind_id_spec(kind)) == kind,
        shape_max_health_spec(shape_kind_from_id_spec(shape_kind_id_spec(kind))) == shape_max_health_spec(kind),
{
}

/// Full health of an entity that is neither a tank nor a shape.
pub const DEFAULT_MAX_HEALTH: u32 = 100;

/// Full health of the entity `id`: its tank's max health if it is a tank,
/// else the full health of its shape kind (`shape`, when it is a shape),
/// else `DEFAULT_MAX_HEALTH`.
pub fn entity_max_health(tanks: &Tanks, shape: Option<ShapeKind>, id: EntityId) -> (health: u32)
    requires
        tanks.wf(),
    ensures
        health == if tanks@.dom().contains(id) {
            tanks@[id].max_health
        } else {
            match shape {
                Some(kind) => shape_max_health_spec(kind),
                None => DEFAULT_MAX_HEALTH,
            }
        },
{
    match tanks.get(id) {
        Some(t) => t.max_health,
        None => match shape {
            Some(kind) => shape_max_health(kind),
            None => DEFAULT_MAX_HEALTH,
        },
    }
}

/// Bit that marks a network id as naming a shape rather than a player.
pub const SHAPE_NET_BIT: u32 = 0x8000_0000;

/// Network id of the shape in entity slot `index`.
pub open spec fn shape_net_id(index: usize) -> u32 {
    SHAPE_NET_BIT | (index as u32)
}

/// Network id of the shape in entity slot `index`.
pub fn shape_net_id_of(index: usize) -> (net_id: u32)
    ensures
        net_id == shape_net_id(index),
{
    SHAPE_NET_BIT | (index as u32)
}

/// How clients know the entity `id`: a tank by its connection's id (`conn`,
/// or 0 when it has none), anything else as a shape by its slot index.
pub fn net_id_for(tanks: &Tanks, conn: Option<u32>, id: EntityId) -> (named: (u32, EntityType))
    requires
        tanks.wf(),
    ensures
        tanks@.dom().contains(id) ==> named == (
            match conn {
                Some(c) => c,
                None => 0u32,
            },
            EntityType::Player,
        ),
        !tanks@.dom().contains(id) ==> named == (shape_net_id(id.index), EntityType::Shape),
{
    if tanks.contains(id) {
        (
            match conn {
                Some(c) => c,
                None => 0,
            },
            EntityType::Player,
        )
    } else {
        (shape_net_id_of(id.index), EntityType::Shape)
    }
}

/// Shape network ids carry the shape bit; they never collide with a
/// connection id below that bit.
pub proof fn law_shape_ids_are_marked(index: usize, conn: u32)
    requires
        conn < SHAPE_NET_BIT,
    ensures
        shape_net_id(index) & SHAPE_NET_BIT == SHAPE_NET_BIT,
        shape_net_id(index) != conn,
{
    let low = index as u32;
    assert((SHAPE_NET_BIT | low) & SHAPE_NET_BIT == SHAPE_NET_BIT) by (bit_vector);
    assert(conn < SHAPE_NET_BIT ==> (SHAPE_NET_BIT | low) != conn) by (bit_vector);
}

/// Takes `damage` off `health`, stopping at zero. The hit kills when the
/// entity was alive and is left with no health.
pub fn apply_damage(health: u32, damage: u32) -> (hit: (u32, bool))
    ensures
        hit.0 == if health >= damage { (health - damage) as u32 } else { 0u32 },
        hit.1 == (health > 0 && hit.0 == 0),
{
    let left = health.saturating_sub(damage);
    (left, health > 0 && left == 0)
}

/// Experience the owner of a killing bullet earns: half the victim's
/// experience when it is a tank, the shape's reward (`shape_reward`) when it
/// is a shape, nothing otherwise.
pub fn kill_reward(tanks: &Tanks, shape_reward: Option<u32>, victim: EntityId) -> (reward: Option<u32>)
    requires
        tanks.wf(),
    ensures
        tanks@.dom().contains(victim) ==> reward == Some((tanks@[victim].xp.0 / 2) as u32),
        !tanks@.dom().contains(victim) ==> reward == shape_reward,
{
    match tanks.get(victim) {
        Some(t) => Some(t.xp.0 / 2),
        None => shape_reward,
    }
}

/// The order to delete spent bullets in: each index once, highest first, so
/// that deleting one never shifts another still to be deleted.
pub fn removal_order(spent: &Vec<usize>) -> (order: Vec<usize>)
    ensures
        forall|a: int, b: int| 0 <= a < b < order@.len() ==> #[trigger] order@[a] > #[trigger] order@[b],
        forall|x: usize| #[trigger] order@.contains(x) <==> spent@.contains(x),
{
    let mut order: Vec<usize> = Vec::new();
    let mut i: usize = 0;
    while i < spent.len()
        invariant
            i <= spent@.len(),
            forall|a: int, b: int| 0 <= a < b < order@.len() ==> #[trigger] order@[a] > #[trigger] order@[b],
            forall|x: usize| #[trigger] order@.contains(x) <==> spent@.subrange(0, i as int).contains(x),
        decreases spent.len() - i,
    {
        let x = spent[i];
        let ghost pre_old = spent@.subrange(0, i as int);
        let ghost pre_new = spent@.subrange(0, i + 1);
        let mut pos: usize = 0;
        while pos < order.len() && order[pos] > x
            invariant
                pos <= order@.len(),
                forall|k: int| 0 <= k < pos ==> #[trigger] order@[k] > x,
            decreases order.len() - pos,
        {
            pos = pos + 1;
        }
        let ghost before = order@;
        if pos < order.len() && order[pos] == x {
            proof {
                assert(pre_new =~= pre_old.push(x));
                assert forall|y: usize| #[trigger] order@.contains(y) <==> pre_new.contains(y) by {
                    if y == x {
                        assert(order@[pos as int] == x);
                        assert(pre_new[i as int] == x);
                    }
                    if pre_new.contains(y) && y != x {
                        let k = choose|k: int| 0 <= k < i + 1 && pre_new[k] == y;
                        assert(pre_old[k] == y);
                    }
                }
            }
        } else {
            order.insert(pos, x);
            proof {
                assert(order@ =~= before.subrange(0, pos as int).push(x).add(before.subrange(pos as int, before.len() as int)));
                assert(pre_new =~= pre_old.push(x));
                assert forall|a: int, b: int| 0 <= a < b < order@.len() implies #[trigger] order@[a] > #[trigger] order@[b] by {
                    if b < pos {
                        assert(order@[a] == before[a] && order@[b] == before[b]);
                    } else if a > pos {
                        assert(order@[a] == before[a - 1] && order@[b] == before[b - 1]);
                    } else if a < pos && b > pos {
                        assert(order@[a] == before[a] && order@[b] == before[b - 1]);
                    } else if a == pos {
                        assert(order@[b] == before[b - 1]);
                        assert(before[pos as int] <= x && before[pos as int] != x);
                        if b - 1 > pos {
                            assert(before[pos as int] > before[b - 1]);
                        }
                    } else {
                        assert(order@[a] == before[a]);
                    }
                }
                assert forall|y: usize| #[trigger] order@.contains(y) <==> pre_new.contains(y) by {
                    if order@.contains(y) {
                        let k = choose|k: int| 0 <= k < order@.len() && order@[k] == y;
                        if k < pos {
                            assert(before[k] == y);
                            assert(before.contains(y));
                        } else if k > pos {
                            assert(before[k - 1] == y);
                            assert(before.contains(y));
                        }
                        if y != x {
                            let q = choose|q: int| 0 <= q < i && pre_old[q] == y;
                            assert(pre_new[q] == y);
                        } else {
                            assert(pre_new[i as int] == x);
                        }
                    }
                    if pre_new.contains(y) {
                        if y == x {
                            assert(order@[pos as int] == x);
                        } else {
                            let q = choose|q: int| 0 <= q < i + 1 && pre_new[q] == y;
                            assert(pre_old[q] == y);
                            assert(before.contains(y));
                            let k = choose|k: int| 0 <= k < before.len() && before[k] == y;
                            if k < pos {
                                assert(order@[k] == y);
                            } else {
                                assert(order@[k + 1] == y);
                            }
                        }
                    }
                }
            }
        }
        i = i + 1;
    }
    proof {
        assert(spent@.subrange(0, spent@.len() as int) =~= spent@);
    }
    order
}

/// Damage two overlapping entities deal each other, by whether each is a
/// tank: tanks bump for 2 each; a tank ramming a shape takes 1 and deals
/// 15; shapes only push each other.
pub fn collision_damage(first_is_tank: bool, second_is_tank: bool) -> (damage: Option<(u32, u32)>)
    ensures
        first_is_tank && second_is_tank ==> damage == Some((2u32, 2u32)),
        first_is_tank && !second_is_tank ==> damage == Some((1u32, 15u32)),
        !first_is_tank && second_is_tank ==> damage == Some((15u32, 1u32)),
        !first_is_tank && !second_is_tank ==> damage is None,
{
    match (first_is_tank, second_is_tank) {
        (true, true) => Some((2, 2)),
        (true, false) => Some((1, 15)),
        (false, true) => Some((15, 1)),
        (false, false) => None,
    }
}

/// A player's control input as the game loop receives it (directions as
/// `f32` bit patterns).
#[derive(Clone, Copy, Debug, PartialEq, Eq, Structural)]
pub enum ControlEvent {
    Movement(Option<u32>),
    AutoFire(bool),
    Aim(u32),
}

/// Applies a player's control input to the tank of the entity that
/// player controls (`target`, `None` when the player has none): movement
/// sets the direction of travel, automatic fire its switch, aim the
/// facing. Returns whether a tank took it; with no target, or a target that
/// is no live tank, nothing changes.
pub fn apply_control(tanks: &mut Tanks, target: Option<EntityId>, event: ControlEvent) -> (applied: bool)
    requires
        old(tanks).wf(),
    ensures
        final(tanks).wf(),
        applied == (target matches Some(id) && old(tanks)@.dom().contains(id)),
        !applied ==> final(tanks)@ == old(tanks)@,
        applied ==> final(tanks)@ == old(tanks)@.insert(
            target->0,
            match event {
                ControlEvent::Movement(d) => TankRecord { move_dir_bits: d, ..old(tanks)@[target->0] },
                ControlEvent::AutoFire(e) => TankRecord { auto_fire: e, ..old(tanks)@[target->0] },
                ControlEvent::Aim(a) => TankRecord { aim_bits: a, ..old(tanks)@[target->0] },
            },
        ),
{
    match target {
        None => false,
        Some(id) => match event {
            ControlEvent::Movement(d) => tanks.set_movement_dir(id, d),
            ControlEvent::AutoFire(e) => tanks.set_auto_fire(id, e),
            ControlEvent::Aim(a) => tanks.set_aim(id, a),
        },
    }
}

} // verus!
