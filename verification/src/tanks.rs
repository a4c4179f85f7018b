//! The server's tank component store: a sparse set keyed by entity id.
//!
//! Floating-point state (aim, movement direction, timers, barrel geometry) is
//! carried as raw `f32` bit patterns; this module never interprets it.
use vstd::prelude::*;

verus! {

/// A generational handle to an entity slot.
#[derive(Clone, Copy, Debug, PartialEq, Eq, Hash, Structural)]
pub struct EntityId {
    pub index: usize,
    pub generation: u32,
}

/// Raw `f32` bit patterns of a barrel's geometry.
#[derive(Clone, Copy, Debug, PartialEq, Eq, Structural)]
pub struct BarrelBits {
    pub x: u32,
    pub y: u32,
    pub angle: u32,
    pub width: u32,
    pub length: u32,
}

/// Bit pattern of `0.0f32`.
pub const ZERO_BITS: u32 = 0x0000_0000;

/// Bit pattern of `100.0f32`, a fresh tank's bullet speed.
pub const START_BULLET_SPEED_BITS: u32 = 0x42c8_0000;

/// Bit pattern of `0.5f32`, a fresh tank's reload time.
pub const START_RELOAD_TIME_BITS: u32 = 0x3f00_0000;

/// Bit pattern of `18.0f32`, the default barrel width.
pub const DEFAULT_BARREL_WIDTH_BITS: u32 = 0x4190_0000;

/// Bit pattern of `40.0f32`, the default barrel length.
pub const DEFAULT_BARREL_LENGTH_BITS: u32 = 0x4220_0000;

/// Experience a fresh tank needs for its first level-up.
pub const START_XP_NEED: u32 = 250;

/// Bullet damage of a fresh tank.
pub const START_BULLET_DAMAGE: u32 = 2;

/// The single barrel a tank starts with: centred, 18 wide and 40 long.
pub open spec fn default_barrel() -> BarrelBits {
    BarrelBits {
        x: ZERO_BITS,
        y: ZERO_BITS,
        angle: ZERO_BITS,
        width: DEFAULT_BARREL_WIDTH_BITS,
        length: DEFAULT_BARREL_LENGTH_BITS,
    }
}

/// The default barrel layout.
pub fn default_barrels() -> (barrels: Vec<BarrelBits>)
    ensures
        barrels@ == seq![default_barrel()],
{
    let mut barrels: Vec<BarrelBits> = Vec::new();
    barrels.push(
        BarrelBits {
            x: ZERO_BITS,
            y: ZERO_BITS,
            angle: ZERO_BITS,
            width: DEFAULT_BARREL_WIDTH_BITS,
            length: DEFAULT_BARREL_LENGTH_BITS,
        },
    );
    barrels
}

/// Everything the store keeps about one tank.
pub struct TankRecord {
    pub name: String,
    /// Experience gathered towards the next level, and experience that level needs.
    pub xp: (u32, u32),
    pub aim_bits: u32,
    pub move_dir_bits: Option<u32>,
    pub auto_fire: bool,
    pub reload_timer_bits: u32,
    pub level: u32,
    /// Id of the tank class this tank plays.
    pub tank_type: u32,
    pub max_health: u32,
    pub bullet_damage: u32,
    pub bullet_speed_bits: u32,
    pub reload_time_bits: u32,
    pub barrels: Vec<BarrelBits>,
}

/// The record a tank gets when it spawns as the basic class.
pub open spec fn is_fresh_tank(t: TankRecord, name: String, class_id: u32, class_max_health: u32) -> bool {
    &&& t.name == name
    &&& t.xp == (0u32, START_XP_NEED)
    &&& t.aim_bits == ZERO_BITS
    &&& t.move_dir_bits is None
    &&& !t.auto_fire
    &&& t.reload_timer_bits == ZERO_BITS
    &&& t.level == 1
    &&& t.tank_type == class_id
    &&& t.max_health == class_max_health
    &&& t.bullet_damage == START_BULLET_DAMAGE
    &&& t.bullet_speed_bits == START_BULLET_SPEED_BITS
    &&& t.reload_time_bits == START_RELOAD_TIME_BITS
    &&& t.barrels@ == seq![default_barrel()]
}

/// Sparse set of tanks: dense records plus an entity-index to slot table.
pub struct Tanks {
    ids: Vec<EntityId>,
    slots: Vec<TankRecord>,
    sparse: Vec<Option<usize>>,
}

impl Tanks {
    /// The dense slot holding `id`, if `id` (with its generation) is stored.
    pub closed spec fn slot_of(self, id: EntityId) -> Option<usize> {
        if id.index < self.sparse@.len() {
            match self.sparse@[id.index as int] {
                Some(s) => if s < self.ids@.len() && self.ids@[s as int] == id {
                    Some(s)
                } else {
                    None
                },
                None => None,
            }
        } else {
            None
        }
    }

    /// Dense arrays agree in length, and the sparse table and the id list
    /// point at each other.
    pub closed spec fn wf(self) -> bool {
        &&& self.ids@.len() == self.slots@.len()
        &&& forall|s: int|
            0 <= s < self.ids@.len() ==> (#[trigger] self.ids@[s]).index < self.sparse@.len()
                && self.sparse@[self.ids@[s].index as int] is Some
                && self.sparse@[self.ids@[s].index as int]->0 as int == s
        &&& forall|i: int|
            0 <= i < self.sparse@.len() ==> match #[trigger] self.sparse@[i] {
                Some(s) => s < self.ids@.len() && self.ids@[s as int].index == i,
                None => true,
            }
        &&& forall|s: int|
            0 <= s < self.slots@.len() ==> (#[trigger] self.slots@[s]).xp.1 >= 1
    }
}

impl View for Tanks {
    type V = Map<EntityId, TankRecord>;

    closed spec fn view(&self) -> Map<EntityId, TankRecord> {
        Map::new(
            |id: EntityId| self.slot_of(id) is Some,
            |id: EntityId| self.slots@[self.slot_of(id)->0 as int],
        )
    }
}

impl Tanks {
    /// An empty store with room reserved for `max_tanks` tanks.
    pub fn new(max_tanks: usize) -> (tanks: Self)
        ensures
            tanks.wf(),
            tanks@ == Map::<EntityId, TankRecord>::empty(),
    {
        let tanks = Tanks {
            ids: Vec::with_capacity(max_tanks),
            slots: Vec::with_capacity(max_tanks),
            sparse: Vec::with_capacity(max_tanks),
        };
        assert(tanks@ =~= Map::<EntityId, TankRecord>::empty());
        tanks
    }

    proof fn lemma_slot_of_stored(self, s: int)
        requires
            self.wf(),
            0 <= s < self.ids@.len(),
        ensures
            self.slot_of(self.ids@[s]) == Some(s as usize),
            self@.dom().contains(self.ids@[s]),
            self@[self.ids@[s]] == self.slots@[s],
    {
    }

    /// Stored ids never share an entity index.
    proof fn lemma_indices_distinct(self, s: int, t: int)
        requires
            self.wf(),
            0 <= s < self.ids@.len(),
            0 <= t < self.ids@.len(),
            s != t,
        ensures
            self.ids@[s].index != self.ids@[t].index,
    {
        let i = self.ids@[s].index;
        let j = self.ids@[t].index;
        assert(self.sparse@[i as int]->0 as int == s);
        assert(self.sparse@[j as int]->0 as int == t);
    }

    /// A stored entity index belongs to exactly one stored id.
    pub open spec fn index_taken(self, index: usize) -> bool {
        exists|k: EntityId| #[trigger] self@.dom().contains(k) && k.index == index
    }

    proof fn lemma_index_taken(self, index: usize)
        requires
            self.wf(),
        ensures
            self.index_taken(index) <==> (index < self.sparse@.len()
                && self.sparse@[index as int] is Some),
    {
        if index < self.sparse@.len() && self.sparse@[index as int] is Some {
            let s = self.sparse@[index as int]->0;
            let k = self.ids@[s as int];
            assert(self.slot_of(k) == Some(s));
            assert(self@.dom().contains(k));
        }
        if self.index_taken(index) {
            let k = choose|k: EntityId| #[trigger] self@.dom().contains(k) && k.index == index;
            assert(self.slot_of(k) is Some);
        }
    }

    /// Adds a fresh basic-class tank for `id`. Does nothing when a tank with
    /// the same entity index is already stored (whatever its generation).
    pub fn insert(&mut self, id: EntityId, name: String, class_id: u32, class_max_health: u32)
        requires
            old(self).wf(),
            id.index < usize::MAX,
        ensures
            final(self).wf(),
            old(self).index_taken(id.index) ==> final(self)@ == old(self)@,
            !old(self).index_taken(id.index) ==> {
                &&& final(self)@.dom() == old(self)@.dom().insert(id)
                &&& final(self)@.len() == old(self)@.len() + 1
                &&& is_fresh_tank(final(self)@[id], name, class_id, class_max_health)
                &&& forall|k: EntityId| #[trigger]
                    old(self)@.dom().contains(k) ==> final(self)@[k] == old(self)@[k]
            },
    {
        proof {
            old(self).lemma_index_taken(id.index);
        }
        let ghost before = *self;
        while self.sparse.len() <= id.index
            invariant
                self.wf(),
                self.ids@ == before.ids@,
                self.slots@ == before.slots@,
                self.sparse@.len() >= before.sparse@.len(),
                forall|i: int| 0 <= i < before.sparse@.len() ==> self.sparse@[i] == before.sparse@[i],
                forall|i: int|
                    before.sparse@.len() <= i < self.sparse@.len() ==> self.sparse@[i] is None,
                id.index < usize::MAX,
            decreases id.index + 1 - self.sparse.len(),
        {
            self.sparse.push(None);
        }
        assert(self@ =~= before@) by {
            assert forall|k: EntityId| self.slot_of(k) == before.slot_of(k) by {}
        }
        if self.sparse[id.index].is_some() {
            return;
        }
        let slot = self.ids.len();
        let barrels = default_barrels();
        self.ids.push(id);
        self.slots.push(
            TankRecord {
                name,
                xp: (0, START_XP_NEED),
                aim_bits: ZERO_BITS,
                move_dir_bits: None,
                auto_fire: false,
                reload_timer_bits: ZERO_BITS,
                level: 1,
                tank_type: class_id,
                max_health: class_max_health,
                bullet_damage: START_BULLET_DAMAGE,
                bullet_speed_bits: START_BULLET_SPEED_BITS,
                reload_time_bits: START_RELOAD_TIME_BITS,
                barrels,
            },
        );
        self.sparse.set(id.index, Some(slot));
        proof {
            let mid = before;
            assert forall|s: int| 0 <= s < self.ids@.len() implies (#[trigger] self.ids@[s]).index
                < self.sparse@.len() && self.sparse@[self.ids@[s].index as int] is Some
                && self.sparse@[self.ids@[s].index as int]->0 as int == s by {
                if s < slot {
                    assert(self.ids@[s] == mid.ids@[s]);
                }
            }
            assert forall|k: EntityId| k != id implies self.slot_of(k) == mid.slot_of(k) by {
                if k.index == id.index {
                } else if k.index < mid.sparse@.len() {
                    assert(self.sparse@[k.index as int] == mid.sparse@[k.index as int]);
                }
            }
            assert(self.slot_of(id) == Some(slot));
            assert(self@.dom() =~= old(self)@.dom().insert(id));
            old(self).lemma_dom_is_ids();
            old(self).lemma_index_taken(id.index);
            assert(!old(self)@.dom().contains(id));
        }
    }

    /// The tank stored for `id`, if any.
    pub fn get(&self, id: EntityId) -> (tank: Option<&TankRecord>)
        requires
            self.wf(),
        ensures
            tank is Some <==> self@.dom().contains(id),
            tank matches Some(t) ==> *t == self@[id],
    {
        match self.find(id) {
            Some(slot) => Some(&self.slots[slot]),
            None => None,
        }
    }

    fn find(&self, id: EntityId) -> (slot: Option<usize>)
        requires
            self.wf(),
        ensures
            slot == self.slot_of(id),
            slot matches Some(s) ==> s < self.slots@.len(),
    {
        if id.index >= self.sparse.len() {
            return None;
        }
        match self.sparse[id.index] {
            Some(s) => {
                if s < self.ids.len() && self.ids[s] == id {
                    Some(s)
                } else {
                    None
                }
            },
            None => None,
        }
    }

    /// Whether a tank is stored for `id`.
    pub fn contains(&self, id: EntityId) -> (found: bool)
        requires
            self.wf(),
        ensures
            found == self@.dom().contains(id),
    {
        self.find(id).is_some()
    }
}

impl Tanks {
    /// Removes the tank stored for `id`; `false` when there is none (also
    /// when the slot's entity index is held by another generation).
    pub fn remove(&mut self, id: EntityId) -> (removed: bool)
        requires
            old(self).wf(),
        ensures
            final(self).wf(),
            removed == old(self)@.dom().contains(id),
            final(self)@ == old(self)@.remove(id),
            removed ==> final(self)@.len() == old(self)@.len() - 1,
            !removed ==> final(self)@.len() == old(self)@.len(),
    {
        proof {
            old(self).lemma_dom_is_ids();
        }
        let slot = match self.find(id) {
            Some(s) => s,
            None => {
                assert(self@ =~= self@.remove(id));
                return false;
            },
        };
        let ghost before = *self;
        let last = self.ids.len() - 1;
        proof {
            before.lemma_slot_of_stored(last as int);
        }
        self.ids.swap_remove(slot);
        self.slots.swap_remove(slot);
        self.sparse.set(id.index, None);
        if slot != last {
            let moved = self.ids[slot];
            proof {
                before.lemma_indices_distinct(slot as int, last as int);
            }
            self.sparse.set(moved.index, Some(slot));
        }
        proof {
            assert forall|s: int| 0 <= s < self.ids@.len() implies (#[trigger] self.ids@[s]).index
                < self.sparse@.len() && self.sparse@[self.ids@[s].index as int] is Some
                && self.sparse@[self.ids@[s].index as int]->0 as int == s by {
                if s != slot {
                    before.lemma_indices_distinct(s, slot as int);
                    if slot != last {
                        before.lemma_indices_distinct(s, last as int);
                    }
                }
            }
            assert forall|i: int| 0 <= i < self.sparse@.len() implies match #[trigger] self.sparse@[i] {
                Some(s) => s < self.ids@.len() && self.ids@[s as int].index == i,
                None => true,
            } by {
                if i != id.index && (slot == last || i != self.ids@[slot as int].index) {
                    assert(self.sparse@[i] == before.sparse@[i]);
                    if before.sparse@[i] is Some {
                        let t = before.sparse@[i]->0;
                        if t as int == last {
                            before.lemma_slot_of_stored(last as int);
                        }
                    }
                }
            }
            assert forall|k: EntityId| k != id implies self.slot_of(k) == (if before.slot_of(k)
                == Some(last) { Some(slot) } else { before.slot_of(k) }) by {
                if before.slot_of(k) is Some {
                    let t = before.slot_of(k)->0;
                    before.lemma_slot_of_stored(t as int);
                    if t != last && t != slot {
                        before.lemma_indices_distinct(t as int, slot as int);
                        if slot != last {
                            before.lemma_indices_distinct(t as int, last as int);
                        }
                    }
                } else if k.index < self.sparse@.len() && self.sparse@[k.index as int] is Some {
                    let t = self.sparse@[k.index as int]->0;
                    if t < self.ids@.len() && self.ids@[t as int] == k {
                        if t == slot && slot != last {
                            before.lemma_slot_of_stored(last as int);
                        } else {
                            before.lemma_slot_of_stored(t as int);
                        }
                    }
                }
            }
            assert(self.slot_of(id) is None);
            assert(self@ =~= before@.remove(id));
        }
        true
    }

    /// Sets the movement direction (an `f32` bit pattern, `None` to stop) of
    /// the tank stored for `id`; `false` when there is none.
    pub fn set_movement_dir(&mut self, id: EntityId, dir_bits: Option<u32>) -> (found: bool)
        requires
            old(self).wf(),
        ensures
            final(self).wf(),
            found == old(self)@.dom().contains(id),
            found ==> final(self)@ == old(self)@.insert(
                id,
                (TankRecord { move_dir_bits: dir_bits, ..old(self)@[id] }),
            ),
            !found ==> final(self)@ == old(self)@,
    {
        match self.find(id) {
            Some(slot) => {
                let ghost before = *self;
                self.slots[slot].move_dir_bits = dir_bits;
                proof {
                    assert forall|k: EntityId| #[trigger] self.slot_of(k) == before.slot_of(k) by {}
                    assert(self@ =~= before@.insert(
                        id,
                        (TankRecord { move_dir_bits: dir_bits, ..before@[id] }),
                    ));
                }
                true
            },
            None => false,
        }
    }

    /// Switches automatic fire of the tank stored for `id`; `false` when
    /// there is none.
    pub fn set_auto_fire(&mut self, id: EntityId, enabled: bool) -> (found: bool)
        requires
            old(self).wf(),
        ensures
            final(self).wf(),
            found == old(self)@.dom().contains(id),
            found ==> final(self)@ == old(self)@.insert(
                id,
                (TankRecord { auto_fire: enabled, ..old(self)@[id] }),
            ),
            !found ==> final(self)@ == old(self)@,
    {
        match self.find(id) {
            Some(slot) => {
                let ghost before = *self;
                self.slots[slot].auto_fire = enabled;
                proof {
                    assert forall|k: EntityId| #[trigger] self.slot_of(k) == before.slot_of(k) by {}
                    assert(self@ =~= before@.insert(
                        id,
                        (TankRecord { auto_fire: enabled, ..before@[id] }),
                    ));
                }
                true
            },
            None => false,
        }
    }

    /// Sets the aim (an `f32` bit pattern) of the tank stored for `id`;
    /// `false` when there is none.
    pub fn set_aim(&mut self, id: EntityId, aim_bits: u32) -> (found: bool)
        requires
            old(self).wf(),
        ensures
            final(self).wf(),
            found == old(self)@.dom().contains(id),
            found ==> final(self)@ == old(self)@.insert(
                id,
                (TankRecord { aim_bits, ..old(self)@[id] }),
            ),
            !found ==> final(self)@ == old(self)@,
    {
        match self.find(id) {
            Some(slot) => {
                let ghost before = *self;
                self.slots[slot].aim_bits = aim_bits;
                proof {
                    assert forall|k: EntityId| #[trigger] self.slot_of(k) == before.slot_of(k) by {}
                    assert(self@ =~= before@.insert(id, (TankRecord { aim_bits, ..before@[id] })));
                }
                true
            },
            None => false,
        }
    }

    /// Sets the bullet speed and reload time (`f32` bit patterns) of the
    /// tank stored for `id`; `false` when there is none.
    pub fn set_shot_bits(&mut self, id: EntityId, bullet_speed_bits: u32, reload_time_bits: u32) -> (found: bool)
        requires
            old(self).wf(),
        ensures
            final(self).wf(),
            found == old(self)@.dom().contains(id),
            found ==> final(self)@ == old(self)@.insert(
                id,
                (TankRecord { bullet_speed_bits, reload_time_bits, ..old(self)@[id] }),
            ),
            !found ==> final(self)@ == old(self)@,
    {
        match self.find(id) {
            Some(slot) => {
                let ghost before = *self;
                self.slots[slot].bullet_speed_bits = bullet_speed_bits;
                self.slots[slot].reload_time_bits = reload_time_bits;
                proof {
                    assert forall|k: EntityId| #[trigger] self.slot_of(k) == before.slot_of(k) by {}
                    assert(self@ =~= before@.insert(
                        id,
                        (TankRecord { bullet_speed_bits, reload_time_bits, ..before@[id] }),
                    ));
                }
                true
            },
            None => false,
        }
    }

    /// Number of stored tanks.
    pub fn len(&self) -> (n: usize)
        requires
            self.wf(),
        ensures
            n == self@.len(),
    {
        proof {
            self.lemma_dom_is_ids();
        }
        self.ids.len()
    }

    /// Whether no tank is stored.
    pub fn is_empty(&self) -> (empty: bool)
        requires
            self.wf(),
        ensures
            empty == (self@.len() == 0),
    {
        proof {
            self.lemma_dom_is_ids();
        }
        self.ids.len() == 0
    }

    proof fn lemma_dom_is_ids(self)
        requires
            self.wf(),
        ensures
            self@.dom() == self.ids@.to_set(),
            self@.dom().finite(),
            self@.len() == self.ids@.len(),
    {
        assert forall|k: EntityId| self@.dom().contains(k) <==> self.ids@.to_set().contains(k) by {
            if self@.dom().contains(k) {
                let t = self.slot_of(k)->0;
                assert(self.ids@[t as int] == k);
            }
            if self.ids@.to_set().contains(k) {
                let t = choose|t: int| 0 <= t < self.ids@.len() && self.ids@[t] == k;
                self.lemma_slot_of_stored(t);
            }
        }
        assert(self@.dom() =~= self.ids@.to_set());
        assert(self.ids@.no_duplicates()) by {
            assert forall|a: int, b: int|
                0 <= a < self.ids@.len() && 0 <= b < self.ids@.len() && a != b implies self.ids@[a]
                != self.ids@[b] by {
                self.lemma_indices_distinct(a, b);
            }
        }
        self.ids@.unique_seq_to_set();
    }
}

impl Tanks {
    /// A store holds finitely many tanks, so its length counts them:
    /// `insert` of a new id adds one and `remove` of a stored id takes one.
    pub proof fn lemma_finite(self)
        requires
            self.wf(),
        ensures
            self@.dom().finite(),
    {
        self.lemma_dom_is_ids();
    }

    /// Two stored tanks never share an entity index: an id whose index is
    /// taken by a stored tank of another generation is not in the store.
    pub proof fn lemma_live_indices_distinct(self, a: EntityId, b: EntityId)
        requires
            self.wf(),
            self@.dom().contains(a),
            self@.dom().contains(b),
            a != b,
        ensures
            a.index != b.index,
    {
        let sa = self.slot_of(a)->0;
        let sb = self.slot_of(b)->0;
        assert(self.ids@[sa as int] == a);
        assert(self.ids@[sb as int] == b);
        self.lemma_indices_distinct(sa as int, sb as int);
    }
}

/// While a tank is stored under `id`, no id of the same entity index and
/// another generation is stored: looking one up finds nothing, and
/// inserting one does nothing.
pub proof fn law_stale_ids_are_not_stored(tanks: Tanks, id: EntityId, stale: EntityId)
    requires
        tanks.wf(),
        tanks@.dom().contains(id),
        stale.index == id.index,
        stale.generation != id.generation,
    ensures
        !tanks@.dom().contains(stale),
        tanks.index_taken(stale.index),
{
    if tanks@.dom().contains(stale) {
        tanks.lemma_live_indices_distinct(id, stale);
    }
}

impl Tanks {
    /// Overwrites the levelling state (experience, level, max health, bullet
    /// damage) of the tank stored for `id`; `false` when there is none.
    pub fn set_progress(
        &mut self,
        id: EntityId,
        xp: (u32, u32),
        level: u32,
        max_health: u32,
        bullet_damage: u32,
    ) -> (found: bool)
        requires
            old(self).wf(),
            xp.1 >= 1,
        ensures
            final(self).wf(),
            found == old(self)@.dom().contains(id),
            found ==> final(self)@ == old(self)@.insert(
                id,
                (TankRecord { xp, level, max_health, bullet_damage, ..old(self)@[id] }),
            ),
            !found ==> final(self)@ == old(self)@,
    {
        match self.find(id) {
            Some(slot) => {
                let ghost before = *self;
                self.slots[slot].xp = xp;
                self.slots[slot].level = level;
                self.slots[slot].max_health = max_health;
                self.slots[slot].bullet_damage = bullet_damage;
                proof {
                    assert forall|k: EntityId| #[trigger] self.slot_of(k) == before.slot_of(k) by {}
                    assert(self@ =~= before@.insert(
                        id,
                        (TankRecord { xp, level, max_health, bullet_damage, ..before@[id] }),
                    ));
                }
                true
            },
            None => false,
        }
    }

    /// Every stored tank needs at least one experience point per level.
    pub proof fn lemma_xp_need_positive(self, id: EntityId)
        requires
            self.wf(),
            self@.dom().contains(id),
        ensures
            self@[id].xp.1 >= 1,
    {
        let s = self.slot_of(id)->0;
        assert(self.slots@[s as int].xp.1 >= 1);
    }
}

/// Removing a tank that was just added to a store gives back the store as it
/// was before the addition.
pub proof fn law_remove_undoes_insert(before: Tanks, inserted: Tanks, removed: Tanks, id: EntityId)
    requires
        before.wf(),
        !before.index_taken(id.index),
        inserted@.dom() == before@.dom().insert(id),
        forall|k: EntityId| #[trigger] before@.dom().contains(k) ==> inserted@[k] == before@[k],
        removed@ == inserted@.remove(id),
    ensures
        removed@ == before@,
{
    assert(!before@.dom().contains(id));
    assert(removed@ =~= before@);
}

} // verus!
