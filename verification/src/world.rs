//! The client's picture of the world as server packets update it: which
//! entities exist, where they were last reported, and the own player's
//! stats. Positions, angles, scales and times are carried as the bit
//! patterns of the floats the packets hold; smoothing and drawing them is
//! the renderer's work.
use vstd::prelude::*;
use crate::packets::EntityType;
use crate::tanks::{BarrelBits, ZERO_BITS};
use crate::rules::{
    shape_kind_from_id, shape_kind_from_id_spec, shape_kind_id_spec, shape_max_health, shape_max_health_spec,
    shape_sides, shape_sides_spec, ShapeKind,
};

verus! {

/// One entity the client draws.
pub struct Sprite {
    pub id: u32,
    pub name: String,
    /// The level a player was announced with, or a shape's kind number.
    pub level: u32,
    pub x_bits: u32,
    pub y_bits: u32,
    pub last_x_bits: u32,
    pub last_y_bits: u32,
    pub rot_bits: u32,
    pub last_rot_bits: u32,
    /// The scale the server last reported; `None` until it reports one.
    pub scale_bits: Option<u32>,
    pub health: u32,
    pub max_health: u32,
    pub dying: bool,
    /// When the last position report arrived (bits of the clock reading).
    pub updated_bits: u64,
    pub barrels: Vec<BarrelBits>,
}

/// One entry of an entity-update packet.
pub struct EntityUpdate {
    pub id: u32,
    pub kind: EntityType,
    pub x_bits: u32,
    pub y_bits: u32,
    pub rot_bits: u32,
    pub scale_bits: u32,
    pub health: u32,
    pub max_health: u32,
}

/// The packets the server sends once the channel is up, as the client's
/// state sees them.
pub enum ServerPacket {
    AddEntity {
        id: u32,
        kind: EntityType,
        name: String,
        x_bits: u32,
        y_bits: u32,
        level: u32,
        is_mine: bool,
        barrels: Vec<BarrelBits>,
    },
    UpdateEntities(Vec<EntityUpdate>),
    PlayerStats { level: u32, xp: u32, xp_to_next: u32, health: u32, max_health: u32 },
    RemoveEntity { id: u32, kind: EntityType },
    /// The leaderboard rows, best first, as (name, score).
    Leaderboard(Vec<(String, u32)>),
}

/// The client's world: players, shapes and bullets by kind, the own
/// player's id, and the own stats.
pub struct ClientWorld {
    pub players: Vec<Sprite>,
    pub shapes: Vec<Sprite>,
    pub bullets: Vec<Sprite>,
    pub my_player_id: Option<u32>,
    pub level: u32,
    pub xp: u32,
    pub xp_to_next: u32,
    pub health: u32,
    pub max_health: u32,
    pub leaderboard: Vec<(String, u32)>,
}

/// The three entity lists of a world.
pub struct Lists {
    pub players: Seq<Sprite>,
    pub shapes: Seq<Sprite>,
    pub bullets: Seq<Sprite>,
}

/// The entity lists of `w`.
pub open spec fn lists_of(w: ClientWorld) -> Lists {
    Lists { players: w.players@, shapes: w.shapes@, bullets: w.bullets@ }
}

/// Index of the first entity with `id` in `s`, or -1.
pub open spec fn pos_of(s: Seq<Sprite>, id: u32) -> int
    decreases s.len(),
{
    if s.len() == 0 {
        -1
    } else if s[0].id == id {
        0
    } else {
        let r = pos_of(s.drop_first(), id);
        if r < 0 {
            -1
        } else {
            r + 1
        }
    }
}

proof fn lemma_pos_of_range(s: Seq<Sprite>, id: u32)
    ensures
        -1 <= pos_of(s, id) < s.len(),
        pos_of(s, id) >= 0 ==> s[pos_of(s, id)].id == id,
    decreases s.len(),
{
    if s.len() > 0 && s[0].id != id {
        lemma_pos_of_range(s.drop_first(), id);
    }
}

/// The index of the first entity with `id`, if any.
fn find(list: &Vec<Sprite>, id: u32) -> (k: Option<usize>)
    ensures
        match k {
            Some(i) => i as int == pos_of(list@, id),
            None => pos_of(list@, id) == -1,
        },
        k matches Some(i) ==> (i as int) < list@.len(),
{
    let mut i: usize = 0;
    proof {
        assert(list@.subrange(0, list@.len() as int) =~= list@);
    }
    while i < list.len()
        invariant
            i <= list@.len(),
            pos_of(list@, id) == (if pos_of(list@.subrange(i as int, list@.len() as int), id) < 0 {
                -1
            } else {
                pos_of(list@.subrange(i as int, list@.len() as int), id) + i
            }),
        decreases list.len() - i,
    {
        let ghost rest = list@.subrange(i as int, list@.len() as int);
        assert(rest[0] == list@[i as int]);
        if list[i].id == id {
            return Some(i);
        }
        assert(rest.drop_first() =~= list@.subrange(i + 1, list@.len() as int));
        i = i + 1;
    }
    None
}

/// Whether `s` is a fresh entity: at (`x_bits`, `y_bits`), facing 0, not
/// dying, no scale reported, no barrels, with the given name, level,
/// health, and time of report.
pub open spec fn is_fresh(s: Sprite, id: u32, name: Seq<char>, x_bits: u32, y_bits: u32, level: u32, health: u32, updated_bits: u64) -> bool {
    &&& s.id == id
    &&& s.name@ == name
    &&& s.level == level
    &&& s.x_bits == x_bits
    &&& s.y_bits == y_bits
    &&& s.last_x_bits == x_bits
    &&& s.last_y_bits == y_bits
    &&& s.rot_bits == ZERO_BITS
    &&& s.last_rot_bits == ZERO_BITS
    &&& s.scale_bits is None
    &&& s.health == health
    &&& s.max_health == health
    &&& !s.dying
    &&& s.updated_bits == updated_bits
    &&& s.barrels@.len() == 0
}

/// Health a client gives a newly seen shape of kind number `kind`.
pub open spec fn shape_health(kind: u32) -> u32 {
    shape_max_health_spec(shape_kind_from_id_spec(kind))
}

/// `s` moved by update `e` arriving at `now`: the reported position becomes
/// the current one and the current one the previous one; a bullet keeps
/// its previous angle, a shape and a player take the reported health, and
/// a player also the reported scale.
pub open spec fn moved(s: Sprite, e: EntityUpdate, now: u64) -> Sprite {
    match e.kind {
        EntityType::Bullet => Sprite {
            last_x_bits: s.x_bits,
            last_y_bits: s.y_bits,
            x_bits: e.x_bits,
            y_bits: e.y_bits,
            rot_bits: e.rot_bits,
            updated_bits: now,
            ..s
        },
        EntityType::Shape => Sprite {
            last_x_bits: s.x_bits,
            last_y_bits: s.y_bits,
            x_bits: e.x_bits,
            y_bits: e.y_bits,
            last_rot_bits: s.rot_bits,
            rot_bits: e.rot_bits,
            health: e.health,
            max_health: e.max_health,
            updated_bits: now,
            ..s
        },
        EntityType::Player => Sprite {
            last_x_bits: s.x_bits,
            last_y_bits: s.y_bits,
            x_bits: e.x_bits,
            y_bits: e.y_bits,
            last_rot_bits: s.rot_bits,
            rot_bits: e.rot_bits,
            scale_bits: Some(e.scale_bits),
            health: e.health,
            max_health: e.max_health,
            updated_bits: now,
            ..s
        },
    }
}

/// Whether `after` is `before` with one update entry applied: the first
/// entity of the entry's kind with its id is moved; when there is none, a
/// bullet or shape is added fresh (a shape as kind 1), and a player is
/// passed over.
pub open spec fn entry_applied(before: Lists, after: Lists, e: EntityUpdate, now: u64) -> bool {
    match e.kind {
        EntityType::Bullet => {
            &&& after.players == before.players
            &&& after.shapes == before.shapes
            &&& if pos_of(before.bullets, e.id) >= 0 {
                after.bullets == before.bullets.update(
                    pos_of(before.bullets, e.id),
                    moved(before.bullets[pos_of(before.bullets, e.id)], e, now),
                )
            } else {
                &&& after.bullets.len() == before.bullets.len() + 1
                &&& after.bullets.drop_last() == before.bullets
                &&& is_fresh(after.bullets.last(), e.id, Seq::empty(), e.x_bits, e.y_bits, 0, 0, now)
            }
        },
        EntityType::Shape => {
            &&& after.players == before.players
            &&& after.bullets == before.bullets
            &&& if pos_of(before.shapes, e.id) >= 0 {
                after.shapes == before.shapes.update(
                    pos_of(before.shapes, e.id),
                    moved(before.shapes[pos_of(before.shapes, e.id)], e, now),
                )
            } else {
                &&& after.shapes.len() == before.shapes.len() + 1
                &&& after.shapes.drop_last() == before.shapes
                &&& is_fresh(after.shapes.last(), e.id, Seq::empty(), e.x_bits, e.y_bits, 1, shape_health(1), now)
            }
        },
        EntityType::Player => {
            &&& after.shapes == before.shapes
            &&& after.bullets == before.bullets
            &&& if pos_of(before.players, e.id) >= 0 {
                after.players == before.players.update(
                    pos_of(before.players, e.id),
                    moved(before.players[pos_of(before.players, e.id)], e, now),
                )
            } else {
                after.players == before.players
            }
        },
    }
}

/// Whether `after` is `before` with the entries `es` applied in order.
pub open spec fn entries_applied(before: Lists, after: Lists, es: Seq<EntityUpdate>, now: u64) -> bool
    decreases es.len(),
{
    if es.len() == 0 {
        after == before
    } else {
        exists|mid: Lists|
            entries_applied(before, mid, es.drop_last(), now) && #[trigger] entry_applied(mid, after, es.last(), now)
    }
}

/// Health a newly seen entity of `kind` starts with: a player 100, a shape
/// the full health of its kind, a bullet none.
pub open spec fn fresh_health(kind: EntityType, level: u32) -> u32 {
    match kind {
        EntityType::Player => 100,
        EntityType::Shape => shape_health(level),
        EntityType::Bullet => 0,
    }
}

impl Sprite {
    /// A newly seen entity of `kind` at (`x_bits`, `y_bits`): facing 0,
    /// nothing moved yet, not dying, no scale reported, no barrels. A player
    /// keeps its name and level and has 100 health; a shape takes its kind
    /// number as level and the full health of that kind (a number other
    /// than 2 or 3 is a square); a bullet has no name, level or health.
    pub fn new(kind: EntityType, id: u32, name: String, x_bits: u32, y_bits: u32, level: u32) -> (s: Sprite)
        ensures
            is_fresh(
                s,
                id,
                if kind == EntityType::Player { name@ } else { Seq::empty() },
                x_bits,
                y_bits,
                if kind == EntityType::Bullet { 0 } else { level },
                fresh_health(kind, level),
                0,
            ),
            kind == EntityType::Shape ==> s.max_health == shape_max_health_spec(shape_kind_from_id_spec(level)),
    {
        let (name, level, health) = match kind {
            EntityType::Player => (name, level, 100u32),
            EntityType::Shape => (String::new(), level, shape_max_health(shape_kind_from_id(level))),
            EntityType::Bullet => (String::new(), 0u32, 0u32),
        };
        Sprite {
            id,
            name,
            level,
            x_bits,
            y_bits,
            last_x_bits: x_bits,
            last_y_bits: y_bits,
            rot_bits: ZERO_BITS,
            last_rot_bits: ZERO_BITS,
            scale_bits: None,
            health,
            max_health: health,
            dying: false,
            updated_bits: 0,
            barrels: Vec::new(),
        }
    }
}

fn move_sprite(list: &mut Vec<Sprite>, k: usize, e: &EntityUpdate, now: u64)
    requires
        k < old(list)@.len(),
    ensures
        final(list)@ == old(list)@.update(k as int, moved(old(list)@[k as int], *e, now)),
{
    let ghost before = list@;
    match e.kind {
        EntityType::Bullet => {
            let x = list[k].x_bits;
            let y = list[k].y_bits;
            list[k].last_x_bits = x;
            list[k].last_y_bits = y;
            list[k].x_bits = e.x_bits;
            list[k].y_bits = e.y_bits;
            list[k].rot_bits = e.rot_bits;
            list[k].updated_bits = now;
        },
        EntityType::Shape => {
            let x = list[k].x_bits;
            let y = list[k].y_bits;
            let r = list[k].rot_bits;
            list[k].last_x_bits = x;
            list[k].last_y_bits = y;
            list[k].x_bits = e.x_bits;
            list[k].y_bits = e.y_bits;
            list[k].last_rot_bits = r;
            list[k].rot_bits = e.rot_bits;
            list[k].health = e.health;
            list[k].max_health = e.max_health;
            list[k].updated_bits = now;
        },
        EntityType::Player => {
            let x = list[k].x_bits;
            let y = list[k].y_bits;
            let r = list[k].rot_bits;
            list[k].last_x_bits = x;
            list[k].last_y_bits = y;
            list[k].x_bits = e.x_bits;
            list[k].y_bits = e.y_bits;
            list[k].last_rot_bits = r;
            list[k].rot_bits = e.rot_bits;
            list[k].scale_bits = Some(e.scale_bits);
            list[k].health = e.health;
            list[k].max_health = e.max_health;
            list[k].updated_bits = now;
        },
    }
    assert(list@ =~= before.update(k as int, moved(before[k as int], *e, now)));
}

impl ClientWorld {
    /// Applies one entity-update entry (see `entry_applied`).
    fn apply_entry(&mut self, e: &EntityUpdate, now: u64)
        ensures
            entry_applied(lists_of(*old(self)), lists_of(*final(self)), *e, now),
            final(self).my_player_id == old(self).my_player_id,
            final(self).level == old(self).level,
            final(self).xp == old(self).xp,
            final(self).xp_to_next == old(self).xp_to_next,
            final(self).health == old(self).health,
            final(self).max_health == old(self).max_health,
            final(self).leaderboard@ == old(self).leaderboard@,
    {
        match e.kind {
            EntityType::Bullet => match find(&self.bullets, e.id) {
                Some(k) => move_sprite(&mut self.bullets, k, e, now),
                None => {
                    let mut s = Sprite::new(EntityType::Bullet, e.id, String::new(), e.x_bits, e.y_bits, 0);
                    s.updated_bits = now;
                    self.bullets.push(s);
                    assert(self.bullets@.drop_last() =~= old(self).bullets@);
                },
            },
            EntityType::Shape => match find(&self.shapes, e.id) {
                Some(k) => move_sprite(&mut self.shapes, k, e, now),
                None => {
                    let mut s = Sprite::new(EntityType::Shape, e.id, String::new(), e.x_bits, e.y_bits, 1);
                    s.updated_bits = now;
                    self.shapes.push(s);
                    assert(self.shapes@.drop_last() =~= old(self).shapes@);
                },
            },
            EntityType::Player => match find(&self.players, e.id) {
                Some(k) => move_sprite(&mut self.players, k, e, now),
                None => {},
            },
        }
    }

    /// Applies a server packet that arrived at `now` (bits of the clock
    /// reading). Returns whether the own player was removed, so that the
    /// spawn menu shows again.
    ///
    /// An added entity goes to the end of its kind's list (a player marked
    /// as the own one sets `my_player_id`); update entries apply in order
    /// (see `entry_applied`); a stats packet sets the own stats; a removal
    /// marks the first entity of that kind and id as dying, and clears
    /// `my_player_id` when it names the own player.
    pub fn apply_server_packet(&mut self, packet: ServerPacket, now: u64) -> (own_removed: bool)
        ensures
            !(packet is Leaderboard) ==> final(self).leaderboard@ == old(self).leaderboard@,
            match packet {
                ServerPacket::AddEntity { id, kind, name, x_bits, y_bits, level, is_mine, barrels } => {
                    &&& !own_removed
                    &&& final(self).level == old(self).level && final(self).xp == old(self).xp
                    &&& final(self).xp_to_next == old(self).xp_to_next && final(self).health == old(self).health
                    &&& final(self).max_health == old(self).max_health
                    &&& match kind {
                        EntityType::Player => {
                            &&& final(self).players@.len() == old(self).players@.len() + 1
                            &&& final(self).players@.drop_last() == old(self).players@
                            &&& ({
                                let s = final(self).players@.last();
                                &&& s.id == id && s.name@ == name@ && s.level == level
                                &&& s.x_bits == x_bits && s.y_bits == y_bits
                                &&& s.last_x_bits == x_bits && s.last_y_bits == y_bits
                                &&& s.rot_bits == ZERO_BITS && s.last_rot_bits == ZERO_BITS
                                &&& s.scale_bits is None && s.health == 100 && s.max_health == 100
                                &&& !s.dying && s.updated_bits == 0 && s.barrels@ == barrels@
                            })
                            &&& final(self).shapes@ == old(self).shapes@
                            &&& final(self).bullets@ == old(self).bullets@
                            &&& final(self).my_player_id == (if is_mine { Some(id) } else { old(self).my_player_id })
                        },
                        EntityType::Shape => {
                            &&& final(self).shapes@.len() == old(self).shapes@.len() + 1
                            &&& final(self).shapes@.drop_last() == old(self).shapes@
                            &&& is_fresh(final(self).shapes@.last(), id, Seq::empty(), x_bits, y_bits, level, shape_health(level), 0)
                            &&& final(self).players@ == old(self).players@
                            &&& final(self).bullets@ == old(self).bullets@
                            &&& final(self).my_player_id == old(self).my_player_id
                        },
                        EntityType::Bullet => {
                            &&& final(self).bullets@.len() == old(self).bullets@.len() + 1
                            &&& final(self).bullets@.drop_last() == old(self).bullets@
                            &&& is_fresh(final(self).bullets@.last(), id, Seq::empty(), x_bits, y_bits, 0, 0, 0)
                            &&& final(self).players@ == old(self).players@
                            &&& final(self).shapes@ == old(self).shapes@
                            &&& final(self).my_player_id == old(self).my_player_id
                        },
                    }
                },
                ServerPacket::UpdateEntities(es) => {
                    &&& !own_removed
                    &&& entries_applied(lists_of(*old(self)), lists_of(*final(self)), es@, now)
                    &&& final(self).my_player_id == old(self).my_player_id
                    &&& final(self).level == old(self).level && final(self).xp == old(self).xp
                    &&& final(self).xp_to_next == old(self).xp_to_next && final(self).health == old(self).health
                    &&& final(self).max_health == old(self).max_health
                },
                ServerPacket::PlayerStats { level, xp, xp_to_next, health, max_health } => {
                    &&& !own_removed
                    &&& lists_of(*final(self)) == lists_of(*old(self))
                    &&& final(self).my_player_id == old(self).my_player_id
                    &&& final(self).level == level && final(self).xp == xp
                    &&& final(self).xp_to_next == xp_to_next && final(self).health == health
                    &&& final(self).max_health == max_health
                },
                ServerPacket::Leaderboard(rows) => {
                    &&& !own_removed
                    &&& final(self).leaderboard@ == rows@
                    &&& lists_of(*final(self)) == lists_of(*old(self))
                    &&& final(self).my_player_id == old(self).my_player_id
                    &&& final(self).level == old(self).level && final(self).xp == old(self).xp
                    &&& final(self).xp_to_next == old(self).xp_to_next && final(self).health == old(self).health
                    &&& final(self).max_health == old(self).max_health
                },
                ServerPacket::RemoveEntity { id, kind } => {
                    &&& own_removed == (kind == EntityType::Player && old(self).my_player_id == Some(id))
                    &&& final(self).my_player_id == (if own_removed { None } else { old(self).my_player_id })
                    &&& final(self).level == old(self).level && final(self).xp == old(self).xp
                    &&& final(self).xp_to_next == old(self).xp_to_next && final(self).health == old(self).health
                    &&& final(self).max_health == old(self).max_health
                    &&& ({
                        let before = lists_of(*old(self));
                        let after = lists_of(*final(self));
                        match kind {
                            EntityType::Player => {
                                &&& after.shapes == before.shapes && after.bullets == before.bullets
                                &&& after.players == (if pos_of(before.players, id) >= 0 {
                                    before.players.update(pos_of(before.players, id), Sprite { dying: true, ..before.players[pos_of(before.players, id)] })
                                } else {
                                    before.players
                                })
                            },
                            EntityType::Shape => {
                                &&& after.players == before.players && after.bullets == before.bullets
                                &&& after.shapes == (if pos_of(before.shapes, id) >= 0 {
                                    before.shapes.update(pos_of(before.shapes, id), Sprite { dying: true, ..before.shapes[pos_of(before.shapes, id)] })
                                } else {
                                    before.shapes
                                })
                            },
                            EntityType::Bullet => {
                                &&& after.players == before.players && after.shapes == before.shapes
                                &&& after.bullets == (if pos_of(before.bullets, id) >= 0 {
                                    before.bullets.update(pos_of(before.bullets, id), Sprite { dying: true, ..before.bullets[pos_of(before.bullets, id)] })
                                } else {
                                    before.bullets
                                })
                            },
                        }
                    })
                },
            },
    {
        match packet {
            ServerPacket::AddEntity { id, kind, name, x_bits, y_bits, level, is_mine, barrels } => {
                match kind {
                    EntityType::Player => {
                        let mut s = Sprite::new(EntityType::Player, id, name, x_bits, y_bits, level);
                        s.barrels = barrels;
                        if is_mine {
                            self.my_player_id = Some(id);
                        }
                        self.players.push(s);
                        assert(self.players@.drop_last() =~= old(self).players@);
                    },
                    EntityType::Shape => {
                        let s = Sprite::new(EntityType::Shape, id, String::new(), x_bits, y_bits, level);
                        self.shapes.push(s);
                        assert(self.shapes@.drop_last() =~= old(self).shapes@);
                    },
                    EntityType::Bullet => {
                        let s = Sprite::new(EntityType::Bullet, id, String::new(), x_bits, y_bits, 0);
                        self.bullets.push(s);
                        assert(self.bullets@.drop_last() =~= old(self).bullets@);
                    },
                }
                false
            },
            ServerPacket::UpdateEntities(es) => {
                let ghost start = lists_of(*self);
                let mut i: usize = 0;
                while i < es.len()
                    invariant
                        i <= es@.len(),
                        entries_applied(start, lists_of(*self), es@.subrange(0, i as int), now),
                        self.my_player_id == old(self).my_player_id,
                        self.level == old(self).level,
                        self.xp == old(self).xp,
                        self.xp_to_next == old(self).xp_to_next,
                        self.health == old(self).health,
                        self.max_health == old(self).max_health,
                        self.leaderboard@ == old(self).leaderboard@,
                    decreases es.len() - i,
                {
                    let ghost mid = lists_of(*self);
                    self.apply_entry(&es[i], now);
                    proof {
                        let sub = es@.subrange(0, i + 1);
                        assert(sub.drop_last() =~= es@.subrange(0, i as int));
                        assert(sub.last() == es@[i as int]);
                        assert(entry_applied(mid, lists_of(*self), sub.last(), now));
                    }
                    i = i + 1;
                }
                proof {
                    assert(es@.subrange(0, es@.len() as int) =~= es@);
                }
                false
            },
            ServerPacket::PlayerStats { level, xp, xp_to_next, health, max_health } => {
                self.level = level;
                self.xp = xp;
                self.xp_to_next = xp_to_next;
                self.health = health;
                self.max_health = max_health;
                false
            },
            ServerPacket::Leaderboard(rows) => {
                self.leaderboard = rows;
                false
            },
            ServerPacket::RemoveEntity { id, kind } => {
                let own = match kind {
                    EntityType::Player => match self.my_player_id {
                        Some(m) => m == id,
                        None => false,
                    },
                    _ => false,
                };
                let ghost before = lists_of(*self);
                match kind {
                    EntityType::Player => match find(&self.players, id) {
                        Some(k) => {
                            self.players[k].dying = true;
                            assert(self.players@ =~= before.players.update(k as int, Sprite { dying: true, ..before.players[k as int] }));
                        },
                        None => {},
                    },
                    EntityType::Shape => match find(&self.shapes, id) {
                        Some(k) => {
                            self.shapes[k].dying = true;
                            assert(self.shapes@ =~= before.shapes.update(k as int, Sprite { dying: true, ..before.shapes[k as int] }));
                        },
                        None => {},
                    },
                    EntityType::Bullet => match find(&self.bullets, id) {
                        Some(k) => {
                            self.bullets[k].dying = true;
                            assert(self.bullets@ =~= before.bullets.update(k as int, Sprite { dying: true, ..before.bullets[k as int] }));
                        },
                        None => {},
                    },
                }
                if own {
                    self.my_player_id = None;
                }
                own
            },
        }
    }
}

/// Sides of the shape a sprite of kind number `kind` is drawn as.
pub fn shape_sides_of(kind: u32) -> (sides: u32)
    ensures
        sides == shape_sides_spec(shape_kind_from_id_spec(kind)),
{
    shape_sides(shape_kind_from_id(kind))
}

/// A fresh shape announced with the number of kind `k` shows as that kind:
/// full health of `k`, the sides of `k`, at the announced position with
/// nothing moved yet, not dying; a number that names no kind but 2 or 3
/// shows a square.
pub proof fn law_fresh_shape_of_kind(s: Sprite, id: u32, x_bits: u32, y_bits: u32, k: ShapeKind, n: u32)
    requires
        is_fresh(
            s,
            id,
            Seq::empty(),
            x_bits,
            y_bits,
            shape_kind_id_spec(k),
            shape_health(shape_kind_id_spec(k)),
            0,
        ),
    ensures
        shape_kind_from_id_spec(s.level) == k,
        s.health == shape_max_health_spec(k),
        s.max_health == shape_max_health_spec(k),
        shape_sides_spec(shape_kind_from_id_spec(s.level)) == shape_sides_spec(k),
        s.x_bits == x_bits && s.last_x_bits == x_bits,
        s.y_bits == y_bits && s.last_y_bits == y_bits,
        s.rot_bits == ZERO_BITS && s.last_rot_bits == ZERO_BITS,
        !s.dying,
        n != 2 && n != 3 ==> shape_kind_from_id_spec(n) == ShapeKind::Square && shape_health(n) == 10
            && shape_sides_spec(shape_kind_from_id_spec(n)) == 4,
{
}

/// An update entry moves the first entity of its kind that has its id, if
/// there is one, and touches no other entity: the reported position
/// becomes current and the old one previous, the reported angle current;
/// a player and a shape take the reported health and max health, and a
/// player the reported scale; a bullet keeps its previous angle and its
/// health. Its id, name, level and whether it is dying stay, and it is
/// stamped with the arrival time.
pub proof fn law_update_moves_known_entity(before: Lists, after: Lists, e: EntityUpdate, now: u64)
    requires
        entry_applied(before, after, e, now),
    ensures
        ({
            let (b, a) = match e.kind {
                EntityType::Player => (before.players, after.players),
                EntityType::Shape => (before.shapes, after.shapes),
                EntityType::Bullet => (before.bullets, after.bullets),
            };
            let k = pos_of(b, e.id);
            k >= 0 ==> {
                &&& a.len() == b.len()
                &&& forall|j: int| 0 <= j < b.len() && j != k ==> #[trigger] a[j] == b[j]
                &&& a[k].id == e.id
                &&& a[k].x_bits == e.x_bits && a[k].y_bits == e.y_bits
                &&& a[k].last_x_bits == b[k].x_bits && a[k].last_y_bits == b[k].y_bits
                &&& a[k].rot_bits == e.rot_bits
                &&& a[k].updated_bits == now
                &&& a[k].name == b[k].name && a[k].level == b[k].level && a[k].dying == b[k].dying
                &&& a[k].barrels == b[k].barrels
                &&& (e.kind != EntityType::Bullet) ==> {
                    &&& a[k].health == e.health
                    &&& a[k].max_health == e.max_health
                    &&& a[k].last_rot_bits == b[k].rot_bits
                }
                &&& (e.kind == EntityType::Player) ==> a[k].scale_bits == Some(e.scale_bits)
                &&& (e.kind != EntityType::Player) ==> a[k].scale_bits == b[k].scale_bits
                &&& (e.kind == EntityType::Bullet) ==> {
                    &&& a[k].health == b[k].health
                    &&& a[k].max_health == b[k].max_health
                    &&& a[k].last_rot_bits == b[k].last_rot_bits
                }
            }
        }),
{
    lemma_pos_of_range(before.players, e.id);
    lemma_pos_of_range(before.shapes, e.id);
    lemma_pos_of_range(before.bullets, e.id);
}

/// An update packet with one entry applies exactly that entry.
pub proof fn law_single_entry_update(before: Lists, after: Lists, e: EntityUpdate, now: u64)
    requires
        entries_applied(before, after, seq![e], now),
    ensures
        entry_applied(before, after, e, now),
{
    let es = seq![e];
    assert(es.drop_last() =~= Seq::<EntityUpdate>::empty());
    let mid = choose|mid: Lists|
        entries_applied(before, mid, es.drop_last(), now) && #[trigger] entry_applied(mid, after, es.last(), now);
    assert(mid == before);
}

} // verus!
